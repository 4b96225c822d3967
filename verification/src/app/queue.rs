//! The queue: one row per distorted file, how rows are ordered and ranked, and
//! what clicks and drops do to them.
use vstd::prelude::*;
use std::cmp::Ordering;
use crate::metrics::cell::{
    finished, lower_better, rank, rank_low, rank_low_of, rank_of, CellStat, CellView, DoneStats,
    MetricCell, Stamp, StampView, StatRank,
};
use crate::metrics::ffmpeg::MetricKind;
use crate::num::{
    is_same_num, lower, lower_of, same_num, upper, upper_of, Num, INFINITE, NEG_INFINITE,
};
use crate::order::{
    before, is_text_less, lemma_text_keys, lemma_the_order, order_of, text_keys, text_keys_of,
    text_less, the_order,
};
use crate::outside::opt_text;
use crate::probe::{opt_media, MediaInfo, MediaView};
use crate::text::{same, texts};

verus! {

/// What is kept of a finished cell, so that it need not be computed again.
#[derive(Debug)]
pub struct CachedStats {
    pub stats: Option<DoneStats>,
    /// The rank of each statistic among those of all rows.
    pub ranks: Vec<StatRank>,
    /// The text of the cell.
    pub text: String,
    /// When the run ended.
    pub finished: Option<String>,
}

#[verifier::ext_equal]
pub struct CacheView {
    pub stats: Option<DoneStats>,
    pub ranks: Seq<StatRank>,
    pub text: Seq<char>,
    pub finished: Option<Seq<char>>,
}

impl View for CachedStats {
    type V = CacheView;

    open spec fn view(&self) -> CacheView {
        CacheView {
            stats: self.stats,
            ranks: self.ranks@,
            text: self.text@,
            finished: opt_text(self.finished),
        }
    }
}

pub open spec fn plain_ranks() -> Seq<StatRank> {
    Seq::new(10, |i: int| StatRank::Plain)
}

fn plain_ranks_of() -> (r: Vec<StatRank>)
    ensures
        r@ == plain_ranks(),
{
    let mut r: Vec<StatRank> = Vec::new();
    let mut i: usize = 0;
    while i < 10
        invariant
            i <= 10,
            r@ =~= Seq::new(i as nat, |j: int| StatRank::Plain),
        decreases 10 - i,
    {
        r.push(StatRank::Plain);
        i += 1;
    }
    r
}

/// Nothing kept.
pub open spec fn no_cache() -> CacheView {
    CacheView { stats: None, ranks: plain_ranks(), text: Seq::empty(), finished: None }
}

impl Default for CachedStats {
    fn default() -> (r: CachedStats)
        ensures
            r@ == no_cache(),
    {
        CachedStats { stats: None, ranks: plain_ranks_of(), text: String::new(), finished: None }
    }
}

/// A queued file.
#[derive(Debug)]
pub struct QueueRow {
    pub path: String,
    /// The path in a form that is the same for all spellings of one file.
    pub key: String,
    pub display: String,
    /// Whether the file takes part in runs and plots.
    pub included: bool,
    /// The slot of the file's plot colour; no other row ever has it.
    pub color_idx: usize,
    /// Which probe may tell of the file.
    pub probe_gen: u64,
    pub selected: bool,
    pub media: String,
    pub media_tip: String,
    pub info: Option<MediaInfo>,
    pub psnr: MetricCell,
    pub ssim: MetricCell,
    pub vmaf: MetricCell,
    pub xpsnr: MetricCell,
    pub ssim2: MetricCell,
    pub butter: MetricCell,
    pub cvvdp: MetricCell,
    pub psnr_cache: CachedStats,
    pub ssim_cache: CachedStats,
    pub vmaf_cache: CachedStats,
    pub xpsnr_cache: CachedStats,
    pub ssim2_cache: CachedStats,
    pub butter_cache: CachedStats,
    pub cvvdp_cache: CachedStats,
}

/// A row, with its cells and what is kept of them by the metric's place.
#[verifier::ext_equal]
pub struct RowView {
    pub path: Seq<char>,
    pub key: Seq<char>,
    pub display: Seq<char>,
    pub included: bool,
    pub color_idx: usize,
    pub probe_gen: u64,
    pub selected: bool,
    pub media: Seq<char>,
    pub media_tip: Seq<char>,
    pub info: Option<MediaView>,
    pub cells: Seq<CellView>,
    pub caches: Seq<CacheView>,
}

impl View for QueueRow {
    type V = RowView;

    open spec fn view(&self) -> RowView {
        RowView {
            path: self.path@,
            key: self.key@,
            display: self.display@,
            included: self.included,
            color_idx: self.color_idx,
            probe_gen: self.probe_gen,
            selected: self.selected,
            media: self.media@,
            media_tip: self.media_tip@,
            info: opt_media(self.info),
            cells: seq![
                self.psnr@,
                self.ssim@,
                self.vmaf@,
                self.xpsnr@,
                self.ssim2@,
                self.butter@,
                self.cvvdp@,
            ],
            caches: seq![
                self.psnr_cache@,
                self.ssim_cache@,
                self.vmaf_cache@,
                self.xpsnr_cache@,
                self.ssim2_cache@,
                self.butter_cache@,
                self.cvvdp_cache@,
            ],
        }
    }
}

pub open spec fn row_views(v: Seq<QueueRow>) -> Seq<RowView> {
    v.map_values(|r: QueueRow| r@)
}

impl RowView {
    pub open spec fn cell(self, kind: MetricKind) -> CellView {
        self.cells[kind.place()]
    }

    pub open spec fn cache(self, kind: MetricKind) -> CacheView {
        self.caches[kind.place()]
    }

    pub open spec fn with_cell(self, kind: MetricKind, c: CellView) -> RowView {
        RowView { cells: self.cells.update(kind.place(), c), ..self }
    }

    pub open spec fn with_cache(self, kind: MetricKind, c: CacheView) -> RowView {
        RowView { caches: self.caches.update(kind.place(), c), ..self }
    }
}

/// Statistics are kept exactly for finished cells.
pub open spec fn row_ok(r: RowView) -> bool {
    &&& r.cells.len() == 7
    &&& r.caches.len() == 7
    &&& forall|k: MetricKind|
        (#[trigger] r.cache(k)).stats is Some <==> finished(r.cell(k))
}

impl QueueRow {
    pub fn cell(&self, kind: MetricKind) -> (r: &MetricCell)
        ensures
            r@ == self@.cell(kind),
    {
        match kind {
            MetricKind::Psnr => &self.psnr,
            MetricKind::Ssim => &self.ssim,
            MetricKind::Vmaf => &self.vmaf,
            MetricKind::Xpsnr => &self.xpsnr,
            MetricKind::Ssim2 => &self.ssim2,
            MetricKind::But => &self.butter,
            MetricKind::Cvvdp => &self.cvvdp,
        }
    }

    pub fn cell_mut(&mut self, kind: MetricKind) -> (r: &mut MetricCell)
        ensures
            r@ == old(self)@.cell(kind),
            final(self)@ == old(self)@.with_cell(kind, final(r)@),
    {
        match kind {
            MetricKind::Psnr => &mut self.psnr,
            MetricKind::Ssim => &mut self.ssim,
            MetricKind::Vmaf => &mut self.vmaf,
            MetricKind::Xpsnr => &mut self.xpsnr,
            MetricKind::Ssim2 => &mut self.ssim2,
            MetricKind::But => &mut self.butter,
            MetricKind::Cvvdp => &mut self.cvvdp,
        }
    }

    pub fn cached(&self, kind: MetricKind) -> (r: &CachedStats)
        ensures
            r@ == self@.cache(kind),
    {
        match kind {
            MetricKind::Psnr => &self.psnr_cache,
            MetricKind::Ssim => &self.ssim_cache,
            MetricKind::Vmaf => &self.vmaf_cache,
            MetricKind::Xpsnr => &self.xpsnr_cache,
            MetricKind::Ssim2 => &self.ssim2_cache,
            MetricKind::But => &self.butter_cache,
            MetricKind::Cvvdp => &self.cvvdp_cache,
        }
    }

    pub fn cached_mut(&mut self, kind: MetricKind) -> (r: &mut CachedStats)
        ensures
            r@ == old(self)@.cache(kind),
            final(self)@ == old(self)@.with_cache(kind, final(r)@),
    {
        match kind {
            MetricKind::Psnr => &mut self.psnr_cache,
            MetricKind::Ssim => &mut self.ssim_cache,
            MetricKind::Vmaf => &mut self.vmaf_cache,
            MetricKind::Xpsnr => &mut self.xpsnr_cache,
            MetricKind::Ssim2 => &mut self.ssim2_cache,
            MetricKind::But => &mut self.butter_cache,
            MetricKind::Cvvdp => &mut self.cvvdp_cache,
        }
    }

    /// Drops what is kept of a cell.
    pub fn clear_cached(&mut self, kind: MetricKind)
        ensures
            final(self)@ == old(self)@.with_cache(kind, no_cache()),
    {
        *self.cached_mut(kind) = CachedStats::default();
    }
}

// ---- Staleness ----

/// Whether two runs were computed under the same settings, as far as they
/// matter to the metric: FFVship knows nothing of scaling, framerate and pixel
/// format, and only VMAF of the VMAF options.
pub open spec fn same_settings(kind: MetricKind, a: StampView, b: StampView) -> bool {
    &&& same_num(a.skip, b.skip)
    &&& same_num(a.clip_dur, b.clip_dur)
    &&& kind is Vmaf ==> a.vmaf_cfg == b.vmaf_cfg
    &&& !kind.by_ffvship() ==> a.scaler == b.scaler && a.fps_mode == b.fps_mode && a.ref_pixfmt
        == b.ref_pixfmt
}

/// A finished cell whose run had other settings.
pub open spec fn stale(kind: MetricKind, cell: CellView, cur: StampView) -> bool {
    match cell {
        CellView::Done { stamp, .. } => !same_settings(kind, stamp, cur),
        _ => false,
    }
}

fn same_vmaf(a: &Stamp, b: &Stamp) -> (r: bool)
    ensures
        r == (a@.vmaf_cfg == b@.vmaf_cfg),
{
    match (&a.vmaf_cfg, &b.vmaf_cfg) {
        (Some(x), Some(y)) => x.same(y),
        (None, None) => true,
        _ => false,
    }
}

/// Whether a finished cell was computed under other settings than the current
/// ones.
pub fn done_is_stale(kind: MetricKind, cell: &MetricCell, cur: &Stamp) -> (r: bool)
    ensures
        r == stale(kind, cell@, cur@),
{
    match cell {
        MetricCell::Done { stamp, .. } => {
            let ffvship = kind.is_ffvship();
            !(is_same_num(stamp.skip, cur.skip) && is_same_num(stamp.clip_dur, cur.clip_dur) && (
            !matches!(kind, MetricKind::Vmaf) || same_vmaf(stamp, cur)) && (ffvship || (
            stamp.scaler == cur.scaler && same(stamp.fps_mode.as_str(), cur.fps_mode.as_str())
                && same(stamp.ref_pixfmt.as_str(), cur.ref_pixfmt.as_str()))))
        },
        _ => false,
    }
}

/// A change of the VMAF options makes no other metric stale.
pub proof fn lemma_vmaf_options_touch_vmaf_alone(
    kind: MetricKind,
    cell: CellView,
    cur: StampView,
    other: StampView,
)
    requires
        !(kind is Vmaf),
        other == (StampView { vmaf_cfg: other.vmaf_cfg, ..cur }),
    ensures
        stale(kind, cell, cur) == stale(kind, cell, other),
{
}

/// A change of scaling, framerate or pixel format makes no FFVship metric
/// stale.
pub proof fn lemma_scaling_leaves_ffvship(
    kind: MetricKind,
    cell: CellView,
    cur: StampView,
    other: StampView,
)
    requires
        kind.by_ffvship(),
        other.skip == cur.skip,
        other.clip_dur == cur.clip_dur,
    ensures
        stale(kind, cell, cur) == stale(kind, cell, other),
{
}

// ---- Sorting ----

/// A column that rows can be sorted by.
#[derive(Debug, Clone, Copy, PartialEq, Eq, Structural)]
pub enum SortColumn {
    Path,
    Metric(MetricKind),
}

#[derive(Debug, Clone, Copy, PartialEq, Eq, Structural)]
pub enum SortDir {
    Asc,
    Desc,
}

impl SortDir {
    pub open spec fn other(self) -> SortDir {
        match self {
            SortDir::Asc => SortDir::Desc,
            SortDir::Desc => SortDir::Asc,
        }
    }

    pub fn flipped(self) -> (r: SortDir)
        ensures
            r == self.other(),
    {
        match self {
            SortDir::Asc => SortDir::Desc,
            SortDir::Desc => SortDir::Asc,
        }
    }
}

/// Flipping twice changes nothing.
pub proof fn lemma_flip_twice(d: SortDir)
    ensures
        d.other().other() == d,
{
}

/// The direction that shows the best first: names from A to Z, and the least
/// Butteraugli and spread, the greatest of everything else.
pub open spec fn first_dir(col: SortColumn, stat: CellStat) -> SortDir {
    match col {
        SortColumn::Path => SortDir::Asc,
        SortColumn::Metric(kind) => if kind is But || stat is StdDev {
            SortDir::Asc
        } else {
            SortDir::Desc
        },
    }
}

pub fn initial_dir(col: SortColumn, stat: CellStat) -> (r: SortDir)
    ensures
        r == first_dir(col, stat),
{
    match col {
        SortColumn::Path => SortDir::Asc,
        SortColumn::Metric(MetricKind::But) => SortDir::Asc,
        SortColumn::Metric(_) => if matches!(stat, CellStat::StdDev) {
            SortDir::Asc
        } else {
            SortDir::Desc
        },
    }
}

/// A click on a column's header.
pub open spec fn cycled(
    current: Option<(SortColumn, SortDir)>,
    col: SortColumn,
    stat: CellStat,
) -> Option<(SortColumn, SortDir)> {
    match current {
        None => Some((col, first_dir(col, stat))),
        Some(c) => if c.0 != col {
            Some((col, first_dir(col, stat)))
        } else if c.1 == first_dir(col, stat) {
            Some((col, c.1.other()))
        } else {
            None
        },
    }
}

/// The sorting after a click on a column's header: another column shows its
/// best first, the same one is reversed, and then unsorted.
pub fn cycle_sort(current: Option<(SortColumn, SortDir)>, col: SortColumn, stat: CellStat) -> (r: Option<
    (SortColumn, SortDir),
>)
    ensures
        r == cycled(current, col, stat),
{
    let first = initial_dir(col, stat);
    match current {
        None => Some((col, first)),
        Some(c) => if c.0 != col {
            Some((col, first))
        } else if c.1 == first {
            Some((col, c.1.flipped()))
        } else {
            None
        },
    }
}

/// Three clicks on one column lead from no sorting, or from that by another
/// column, through both directions to none.
pub proof fn lemma_three_clicks_unsort(
    start: Option<(SortColumn, SortDir)>,
    col: SortColumn,
    stat: CellStat,
)
    requires
        start is None || (start->0).0 != col,
    ensures
        ({
            let one = cycled(start, col, stat);
            let two = cycled(one, col, stat);
            &&& one == Some((col, first_dir(col, stat)))
            &&& two == Some((col, first_dir(col, stat).other()))
            &&& cycled(two, col, stat) is None
        }),
{
}

/// The statistic that a row is sorted by; none where it is not scored.
pub open spec fn sort_value(r: RowView, kind: MetricKind, stat: CellStat) -> Option<Num> {
    match r.cache(kind).stats {
        Some(s) => Some(s.values()[stat.place()]),
        None => None,
    }
}

/// The statistic that a row is sorted by: there is one exactly where the
/// metric is finished.
pub fn sort_stat(row: &QueueRow, kind: MetricKind, stat: CellStat) -> (r: Option<Num>)
    requires
        row_ok(row@),
    ensures
        r == sort_value(row@, kind, stat),
        r is Some <==> finished(row@.cell(kind)),
{
    match &row.cached(kind).stats {
        Some(s) => Some(s.value(stat)),
        None => None,
    }
}

/// A key that comes after all scores.
pub const UNSCORED: i128 = 0x1_0000_0000_0000_0000_0000;

/// The sort key of a score.
pub open spec fn score_key(v: Option<Num>, dir: SortDir) -> i128 {
    match v {
        Some(n) => match dir {
            SortDir::Asc => n.total() as i128,
            SortDir::Desc => (-n.total()) as i128,
        },
        None => UNSCORED,
    }
}

pub open spec fn displays(rows: Seq<RowView>) -> Seq<Seq<char>> {
    rows.map_values(|r: RowView| r.display)
}

/// The sort keys of all rows.
pub open spec fn sort_keys(rows: Seq<RowView>, col: SortColumn, dir: SortDir, stat: CellStat) -> Seq<
    i128,
> {
    match col {
        SortColumn::Path => text_keys(displays(rows)).map_values(
            |k: i128|
                match dir {
                    SortDir::Asc => k,
                    SortDir::Desc => (-k) as i128,
                },
        ),
        SortColumn::Metric(kind) => rows.map_values(
            |r: RowView| score_key(sort_value(r, kind, stat), dir),
        ),
    }
}

/// The rows as shown: in the order of the queue, or sorted.
pub open spec fn shown_order(
    rows: Seq<RowView>,
    spec: Option<(SortColumn, SortDir)>,
    stat: CellStat,
) -> Seq<usize> {
    match spec {
        None => Seq::new(rows.len(), |i: int| i as usize),
        Some(s) => the_order(sort_keys(rows, s.0, s.1, stat)),
    }
}

fn displays_of(rows: &Vec<QueueRow>) -> (r: Vec<String>)
    ensures
        texts(r@) == displays(row_views(rows@)),
{
    let mut r: Vec<String> = Vec::new();
    let mut i: usize = 0;
    let ghost all = displays(row_views(rows@));
    assert(texts(r@) =~= all.take(0));
    while i < rows.len()
        invariant
            i <= rows@.len(),
            all == displays(row_views(rows@)),
            texts(r@) == all.take(i as int),
        decreases rows.len() - i,
    {
        assert(all[i as int] == rows@[i as int].display@);
        crate::text::put(&mut r, rows[i].display.as_str());
        i += 1;
        assert(texts(r@) =~= all.take(i as int));
    }
    assert(all.take(i as int) =~= all);
    r
}

/// The statistics of every row are kept.
pub open spec fn rows_ok(rows: Seq<RowView>) -> bool {
    forall|i: int| 0 <= i < rows.len() ==> row_ok(#[trigger] rows[i])
}

fn sort_keys_of(rows: &Vec<QueueRow>, col: SortColumn, dir: SortDir, stat: CellStat) -> (r: Vec<i128>)
    requires
        col is Metric ==> rows_ok(row_views(rows@)),
    ensures
        r@ == sort_keys(row_views(rows@), col, dir, stat),
{
    let mut r: Vec<i128> = Vec::new();
    let ghost want = sort_keys(row_views(rows@), col, dir, stat);
    match col {
        SortColumn::Path => {
            let names = displays_of(rows);
            let keys = text_keys_of(&names);
            let mut i: usize = 0;
            let n: usize = keys.len();
            while i < n
                invariant
                    i <= n,
                    n == keys@.len(),
                    n == rows@.len(),
                    keys@ == text_keys(displays(row_views(rows@))),
                    col is Path,
                    want == sort_keys(row_views(rows@), col, dir, stat),
                    r@ =~= want.take(i as int),
                decreases n - i,
            {
                proof {
                    lemma_key_bound(displays(row_views(rows@)), i as int);
                }
                r.push(
                    match dir {
                        SortDir::Asc => keys[i],
                        SortDir::Desc => -keys[i],
                    },
                );
                i += 1;
            }
        },
        SortColumn::Metric(kind) => {
            let mut i: usize = 0;
            while i < rows.len()
                invariant
                    i <= rows@.len(),
                    col == SortColumn::Metric(kind),
                    rows_ok(row_views(rows@)),
                    want == sort_keys(row_views(rows@), col, dir, stat),
                    r@ =~= want.take(i as int),
                decreases rows.len() - i,
            {
                assert(row_views(rows@)[i as int] == rows@[i as int]@);
                let k: i128 = match sort_stat(&rows[i], kind, stat) {
                    Some(n) => match dir {
                        SortDir::Asc => n.total_key() as i128,
                        SortDir::Desc => -(n.total_key() as i128),
                    },
                    None => UNSCORED,
                };
                r.push(k);
                i += 1;
            }
        },
    }
    assert(want.take(rows@.len() as int) =~= want);
    r
}

proof fn lemma_key_bound(all: Seq<Seq<char>>, i: int)
    requires
        0 <= i < all.len() <= usize::MAX,
    ensures
        0 <= text_keys(all)[i] <= usize::MAX,
{
    lemma_count_in(all, all.len() as int, all[i]);
}

proof fn lemma_count_in(all: Seq<Seq<char>>, n: int, t: Seq<char>)
    requires
        0 <= n,
    ensures
        0 <= crate::order::count_less(all, n, t) <= n,
    decreases n,
{
    if n > 0 {
        lemma_count_in(all, n - 1, t);
    }
}

/// The rows as shown, as indices into the queue.
pub fn sort_view(rows: &Vec<QueueRow>, spec: Option<(SortColumn, SortDir)>, stat: CellStat) -> (r: Vec<
    usize,
>)
    requires
        spec is Some && (spec->0).0 is Metric ==> rows_ok(row_views(rows@)),
    ensures
        r@ == shown_order(row_views(rows@), spec, stat),
        r@.len() == rows@.len(),
        forall|a: int| 0 <= a < r@.len() ==> #[trigger] r@[a] < rows@.len(),
{
    match spec {
        None => {
            let mut r: Vec<usize> = Vec::new();
            let mut i: usize = 0;
            let n: usize = rows.len();
            while i < n
                invariant
                    i <= n,
                    n == rows@.len(),
                    r@ =~= Seq::new(i as nat, |j: int| j as usize),
                decreases n - i,
            {
                r.push(i);
                i += 1;
            }
            r
        },
        Some(s) => {
            let keys = sort_keys_of(rows, s.0, s.1, stat);
            order_of(&keys)
        },
    }
}

/// Sorting only reorders: every row is shown, once.
pub proof fn lemma_shown_order_is_complete(
    rows: Seq<RowView>,
    spec: Option<(SortColumn, SortDir)>,
    stat: CellStat,
)
    requires
        rows.len() <= usize::MAX,
    ensures
        ({
            let v = shown_order(rows, spec, stat);
            &&& v.len() == rows.len()
            &&& forall|i: usize| i < rows.len() ==> #[trigger] v.contains(i)
            &&& forall|a: int, b: int| 0 <= a < b < v.len() ==> #[trigger] v[a] != #[trigger] v[b]
        }),
{
    let v = shown_order(rows, spec, stat);
    match spec {
        None => {
            assert forall|i: usize| i < rows.len() implies #[trigger] v.contains(i) by {
                assert(v[i as int] == i);
            }
        },
        Some(s) => {
            let keys = sort_keys(rows, s.0, s.1, stat);
            lemma_the_order(keys);
            assert forall|a: int, b: int| 0 <= a < b < v.len() implies #[trigger] v[a]
                != #[trigger] v[b] by {
                assert(before(keys, v[a] as int, v[b] as int));
            }
        },
    }
}

/// Sorted by a metric, scored rows come before unscored ones in both
/// directions, scores follow the direction, and rows that tie keep their order
/// in the queue.
pub proof fn lemma_sorted_by_metric(
    rows: Seq<RowView>,
    kind: MetricKind,
    dir: SortDir,
    stat: CellStat,
    a: int,
    b: int,
)
    requires
        rows.len() <= usize::MAX,
        0 <= a < b < rows.len(),
    ensures
        ({
            let v = shown_order(rows, Some((SortColumn::Metric(kind), dir)), stat);
            let x = sort_value(rows[v[a] as int], kind, stat);
            let y = sort_value(rows[v[b] as int], kind, stat);
            &&& x is None ==> y is None
            &&& x is Some && y is Some ==> match dir {
                SortDir::Asc => x->0.total() <= y->0.total(),
                SortDir::Desc => x->0.total() >= y->0.total(),
            }
            &&& x == y ==> v[a] < v[b]
        }),
{
    let keys = sort_keys(rows, SortColumn::Metric(kind), dir, stat);
    lemma_the_order(keys);
    let v = the_order(keys);
    assert(before(keys, v[a] as int, v[b] as int));
}

/// Sorted by path, no name comes before a lesser one (a greater one in
/// reverse), and rows of one name keep their order in the queue.
pub proof fn lemma_sorted_by_path(rows: Seq<RowView>, dir: SortDir, stat: CellStat, a: int, b: int)
    requires
        rows.len() <= usize::MAX,
        0 <= a < b < rows.len(),
    ensures
        ({
            let v = shown_order(rows, Some((SortColumn::Path, dir)), stat);
            let x = rows[v[a] as int].display;
            let y = rows[v[b] as int].display;
            &&& match dir {
                SortDir::Asc => !text_less(y, x),
                SortDir::Desc => !text_less(x, y),
            }
            &&& x == y ==> v[a] < v[b]
        }),
{
    let keys = sort_keys(rows, SortColumn::Path, dir, stat);
    lemma_the_order(keys);
    let v = the_order(keys);
    assert(before(keys, v[a] as int, v[b] as int));
    lemma_text_keys(displays(rows), v[a] as int, v[b] as int);
    lemma_text_keys(displays(rows), v[b] as int, v[a] as int);
    lemma_key_bound(displays(rows), v[a] as int);
    lemma_key_bound(displays(rows), v[b] as int);
}

/// How a number comes before, with or after another.
pub open spec fn number_order(x: int, y: int) -> Ordering {
    if x < y {
        Ordering::Less
    } else if x == y {
        Ordering::Equal
    } else {
        Ordering::Greater
    }
}

/// How a text comes before, with or after another.
pub open spec fn text_order(x: Seq<char>, y: Seq<char>) -> Ordering {
    if text_less(x, y) {
        Ordering::Less
    } else if text_less(y, x) {
        Ordering::Greater
    } else {
        Ordering::Equal
    }
}

/// How a row is shown before, with or after another.
pub open spec fn rows_order(
    col: SortColumn,
    dir: SortDir,
    a: RowView,
    b: RowView,
    stat: CellStat,
) -> Ordering {
    match col {
        SortColumn::Path => match dir {
            SortDir::Asc => text_order(a.display, b.display),
            SortDir::Desc => text_order(b.display, a.display),
        },
        SortColumn::Metric(kind) => match (
            sort_value(a, kind, stat),
            sort_value(b, kind, stat),
        ) {
            (Some(x), Some(y)) => match dir {
                SortDir::Asc => number_order(x.total(), y.total()),
                SortDir::Desc => number_order(y.total(), x.total()),
            },
            (Some(_), None) => Ordering::Less,
            (None, Some(_)) => Ordering::Greater,
            (None, None) => Ordering::Equal,
        },
    }
}

fn order_texts(x: &str, y: &str) -> (r: Ordering)
    ensures
        r == text_order(x@, y@),
{
    if is_text_less(x, y) {
        Ordering::Less
    } else if is_text_less(y, x) {
        Ordering::Greater
    } else {
        Ordering::Equal
    }
}

fn order_numbers(x: Num, y: Num) -> (r: Ordering)
    ensures
        r == number_order(x.total(), y.total()),
{
    let a: i64 = x.total_key();
    let b: i64 = y.total_key();
    if a < b {
        Ordering::Less
    } else if a == b {
        Ordering::Equal
    } else {
        Ordering::Greater
    }
}

/// How a row is shown before, with or after another: scored rows precede
/// unscored ones in both directions.
pub fn cmp_rows(col: SortColumn, dir: SortDir, a: &QueueRow, b: &QueueRow, stat: CellStat) -> (r:
    Ordering)
    requires
        col is Metric ==> row_ok(a@) && row_ok(b@),
    ensures
        r == rows_order(col, dir, a@, b@, stat),
{
    match col {
        SortColumn::Path => match dir {
            SortDir::Asc => order_texts(a.display.as_str(), b.display.as_str()),
            SortDir::Desc => order_texts(b.display.as_str(), a.display.as_str()),
        },
        SortColumn::Metric(kind) => match (sort_stat(a, kind, stat), sort_stat(b, kind, stat)) {
            (Some(x), Some(y)) => match dir {
                SortDir::Asc => order_numbers(x, y),
                SortDir::Desc => order_numbers(y, x),
            },
            (Some(_), None) => Ordering::Less,
            (None, Some(_)) => Ordering::Greater,
            (None, None) => Ordering::Equal,
        },
    }
}

/// The row shown at a place.
pub open spec fn shown_row(rows: Seq<RowView>, view: Seq<usize>, a: int) -> RowView {
    rows[view[a] as int]
}

/// Rows are shown in their order, and rows that tie as they stand in the
/// queue.
pub proof fn lemma_view_follows_order(
    rows: Seq<RowView>,
    col: SortColumn,
    dir: SortDir,
    stat: CellStat,
    a: int,
    b: int,
)
    requires
        rows.len() <= usize::MAX,
        0 <= a < b < rows.len(),
    ensures
        ({
            let v = shown_order(rows, Some((col, dir)), stat);
            let o = rows_order(col, dir, shown_row(rows, v, a), shown_row(rows, v, b), stat);
            &&& !(o is Greater)
            &&& o is Equal ==> v[a] < v[b]
        }),
{
    match col {
        SortColumn::Path => {
            lemma_sorted_by_path(rows, dir, stat, a, b);
            let v = shown_order(rows, Some((col, dir)), stat);
            crate::order::lemma_text_order(
                shown_row(rows, v, a).display,
                shown_row(rows, v, b).display,
                shown_row(rows, v, a).display,
            );
        },
        SortColumn::Metric(kind) => {
            lemma_sorted_by_metric(rows, kind, dir, stat, a, b);
            lemma_equal_totals(rows, kind, dir, stat, a, b);
        },
    }
}

proof fn lemma_equal_totals(
    rows: Seq<RowView>,
    kind: MetricKind,
    dir: SortDir,
    stat: CellStat,
    a: int,
    b: int,
)
    requires
        rows.len() <= usize::MAX,
        0 <= a < b < rows.len(),
    ensures
        ({
            let v = shown_order(rows, Some((SortColumn::Metric(kind), dir)), stat);
            let x = sort_value(shown_row(rows, v, a), kind, stat);
            let y = sort_value(shown_row(rows, v, b), kind, stat);
            &&& x is Some && y is Some && x->0.total() == y->0.total() ==> v[a] < v[b]
            &&& x is None && y is None ==> v[a] < v[b]
        }),
{
    let keys = sort_keys(rows, SortColumn::Metric(kind), dir, stat);
    lemma_the_order(keys);
    let v = the_order(keys);
    assert(before(keys, v[a] as int, v[b] as int));
}

// ---- Flags ----

/// All flags but one off, or all on where the others were off.
pub open spec fn alt_flags(f: Seq<bool>, idx: int) -> Seq<bool> {
    if !(0 <= idx < f.len()) {
        f
    } else if exists|j: int| 0 <= j < f.len() && j != idx && #[trigger] f[j] {
        Seq::new(f.len(), |j: int| j == idx)
    } else {
        Seq::new(f.len(), |j: int| true)
    }
}

/// A click with Alt on a flag: the others go off; where they were, all go on.
pub fn apply_alt_include(flags: &mut Vec<bool>, idx: usize)
    ensures
        final(flags)@ == alt_flags(old(flags)@, idx as int),
{
    if idx >= flags.len() {
        return;
    }
    let n: usize = flags.len();
    let mut others = false;
    let mut j: usize = 0;
    while j < n
        invariant
            j <= n,
            n == flags@.len(),
            others == exists|k: int| 0 <= k < j && k != idx && #[trigger] flags@[k],
        decreases n - j,
    {
        if j != idx && flags[j] {
            assert(flags@[j as int]);
            others = true;
        }
        j += 1;
    }
    let mut k: usize = 0;
    let ghost f0 = flags@;
    while k < n
        invariant
            k <= n,
            n == flags@.len(),
            n == f0.len(),
            forall|i: int|
                0 <= i < k ==> #[trigger] flags@[i] == if others {
                    i == idx
                } else {
                    true
                },
        decreases n - k,
    {
        flags.set(
            k,
            if others {
                k == idx
            } else {
                true
            },
        );
        k += 1;
    }
    assert(flags@ =~= alt_flags(f0, idx as int));
}

/// A second click with Alt on the same flag puts all flags on.
pub proof fn lemma_alt_twice_is_all(f: Seq<bool>, idx: int)
    requires
        0 <= idx < f.len(),
        exists|j: int| 0 <= j < f.len() && j != idx && #[trigger] f[j],
    ensures
        forall|j: int| 0 <= j < f.len() ==> #[trigger] alt_flags(f, idx)[j] == (j == idx),
        forall|j: int| 0 <= j < f.len() ==> #[trigger] alt_flags(alt_flags(f, idx), idx)[j],
{
    let g = alt_flags(f, idx);
    assert(!(exists|j: int| 0 <= j < g.len() && j != idx && #[trigger] g[j]));
}

/// The span between two rows, where both are in the queue.
pub fn shift_include_range(len: usize, anchor: usize, idx: usize) -> (r: Option<(usize, usize)>)
    ensures
        match r {
            Some(s) => {
                &&& anchor < len && idx < len
                &&& s.0 <= s.1
                &&& (s == (anchor, idx) || s == (idx, anchor))
            },
            None => anchor >= len || idx >= len,
        },
{
    if anchor >= len || idx >= len {
        None
    } else if anchor <= idx {
        Some((anchor, idx))
    } else {
        Some((idx, anchor))
    }
}

/// Where a row is shown.
pub open spec fn shown_at(view: Seq<usize>, x: usize, from: int) -> Option<int>
    decreases view.len() - from,
{
    if from < 0 || from >= view.len() {
        None
    } else if view[from] == x {
        Some(from)
    } else {
        shown_at(view, x, from + 1)
    }
}

fn position(view: &Vec<usize>, x: usize) -> (r: Option<usize>)
    ensures
        match r {
            Some(p) => shown_at(view@, x, 0) == Some(p as int) && p < view@.len(),
            None => shown_at(view@, x, 0) is None,
        },
{
    let mut i: usize = 0;
    while i < view.len()
        invariant
            i <= view@.len(),
            shown_at(view@, x, 0) == shown_at(view@, x, i as int),
        decreases view.len() - i,
    {
        if view[i] == x {
            return Some(i);
        }
        i += 1;
    }
    None
}

/// Whether a row is shown from place `lo` to place `hi`.
pub open spec fn in_span(view: Seq<usize>, lo: int, hi: int, u: int) -> bool {
    exists|p: int| lo <= p <= hi && 0 <= p < view.len() && #[trigger] view[p] == u
}

/// The flags with those of a span of shown rows set.
pub open spec fn filled(f: Seq<bool>, view: Seq<usize>, lo: int, hi: int, v: bool) -> Seq<bool> {
    Seq::new(
        f.len(),
        |u: int|
            if in_span(view, lo, hi, u) {
                v
            } else {
                f[u]
            },
    )
}

/// The flags of a column after a click on row `i`: with Alt all others off or
/// all on; with Shift the shown rows from the last clicked one on become what
/// the clicked one becomes; else the clicked one alone.
pub open spec fn clicked(
    f: Seq<bool>,
    i: int,
    alt: bool,
    shift: bool,
    anchor: Option<usize>,
    view: Seq<usize>,
) -> Seq<bool> {
    if alt {
        alt_flags(f, i)
    } else {
        match (
            if shift && anchor is Some && anchor->0 < f.len() {
                shown_at(view, anchor->0, 0)
            } else {
                None
            },
            shown_at(view, i as usize, 0),
        ) {
            (Some(a), Some(b)) => filled(
                f,
                view,
                if a <= b {
                    a
                } else {
                    b
                },
                if a <= b {
                    b
                } else {
                    a
                },
                !f[i],
            ),
            _ => f.update(i, !f[i]),
        }
    }
}

fn fill_span(flags: &mut Vec<bool>, view: &Vec<usize>, lo: usize, hi: usize, v: bool)
    requires
        lo <= hi < view@.len(),
        forall|p: int| 0 <= p < view@.len() ==> #[trigger] view@[p] < old(flags)@.len(),
    ensures
        final(flags)@ == filled(old(flags)@, view@, lo as int, hi as int, v),
{
    let ghost f0 = flags@;
    let n: usize = view.len();
    let mut p: usize = lo;
    assert(flags@ =~= filled(f0, view@, lo as int, lo - 1, v));
    while p <= hi
        invariant
            lo <= p <= hi + 1,
            hi < n,
            n == view@.len(),
            flags@.len() == f0.len(),
            forall|q: int| 0 <= q < view@.len() ==> #[trigger] view@[q] < f0.len(),
            flags@ == filled(f0, view@, lo as int, p - 1, v),
        decreases hi + 1 - p,
    {
        let u: usize = view[p];
        flags.set(u, v);
        proof {
            let want = filled(f0, view@, lo as int, p as int, v);
            assert forall|w: int| 0 <= w < f0.len() implies #[trigger] flags@[w] == want[w] by {
                if w == u {
                    assert(view@[p as int] == w);
                    assert(in_span(view@, lo as int, p as int, w));
                } else if in_span(view@, lo as int, p - 1, w) {
                    let q = choose|q: int|
                        lo <= q <= p - 1 && 0 <= q < view@.len() && #[trigger] view@[q] == w;
                    assert(view@[q] == w);
                    assert(in_span(view@, lo as int, p as int, w));
                } else {
                    assert(!in_span(view@, lo as int, p as int, w)) by {
                        if in_span(view@, lo as int, p as int, w) {
                            let q = choose|q: int|
                                lo <= q <= p && 0 <= q < view@.len() && #[trigger] view@[q] == w;
                            assert(q <= p - 1);
                        }
                    }
                }
            }
            assert(flags@ =~= want);
        }
        p += 1;
    }
}

/// The flags of a column after a click on row `i`.
pub fn click(
    flags: &mut Vec<bool>,
    i: usize,
    alt: bool,
    shift: bool,
    anchor: Option<usize>,
    view: &Vec<usize>,
)
    requires
        i < old(flags)@.len(),
        forall|p: int| 0 <= p < view@.len() ==> #[trigger] view@[p] < old(flags)@.len(),
    ensures
        final(flags)@ == clicked(old(flags)@, i as int, alt, shift, anchor, view@),
{
    if alt {
        apply_alt_include(flags, i);
        return;
    }
    let v = !flags[i];
    let a: Option<usize> = match anchor {
        Some(x) => if shift && x < flags.len() {
            position(view, x)
        } else {
            None
        },
        None => None,
    };
    let b = position(view, i);
    match (a, b) {
        (Some(x), Some(y)) => {
            if x <= y {
                fill_span(flags, view, x, y, v);
            } else {
                fill_span(flags, view, y, x, v);
            }
        },
        _ => {
            flags.set(i, v);
        },
    }
}

/// A click without keys changes the clicked flag alone.
pub proof fn lemma_plain_click(f: Seq<bool>, i: int, anchor: Option<usize>, view: Seq<usize>, j: int)
    requires
        0 <= i < f.len(),
        0 <= j < f.len(),
    ensures
        clicked(f, i, false, false, anchor, view)[j] == (if j == i {
            !f[i]
        } else {
            f[j]
        }),
{
}

// ---- Drops ----

/// What a drop of files does.
#[derive(Debug)]
pub enum DropAction {
    Ignore,
    /// A run is on.
    Blocked,
    /// The first becomes the reference; so many more were dropped.
    SetRef { first: String, extra: usize },
    Queue(Vec<String>),
}

/// What a drop of files does: nothing outside both targets, nothing during a
/// run but a word; the reference takes one file, the queue all.
pub fn route_drop(measuring: bool, is_over_ref: bool, is_over_table: bool, dropped: Vec<String>) -> (r:
    DropAction)
    ensures
        match r {
            DropAction::Ignore => dropped@.len() == 0 || (!measuring && !is_over_ref
                && !is_over_table),
            DropAction::Blocked => dropped@.len() > 0 && measuring,
            DropAction::SetRef { first, extra } => {
                &&& dropped@.len() > 0 && !measuring && is_over_ref
                &&& first@ == dropped@[0]@
                &&& extra == dropped@.len() - 1
            },
            DropAction::Queue(paths) => {
                &&& dropped@.len() > 0 && !measuring && !is_over_ref && is_over_table
                &&& texts(paths@) == texts(dropped@)
            },
        },
{
    if dropped.len() == 0 {
        return DropAction::Ignore;
    }
    if measuring {
        return DropAction::Blocked;
    }
    if is_over_ref {
        let extra: usize = dropped.len() - 1;
        DropAction::SetRef { first: dropped[0].clone(), extra }
    } else if is_over_table {
        DropAction::Queue(dropped)
    } else {
        DropAction::Ignore
    }
}

// ---- Ranks ----

/// How many of the rows are scored.
pub open spec fn scored(rows: Seq<RowView>, kind: MetricKind) -> nat
    decreases rows.len(),
{
    if rows.len() == 0 {
        0
    } else {
        scored(rows.drop_last(), kind) + if rows.last().cache(kind).stats is Some {
            1nat
        } else {
            0
        }
    }
}

/// The least and the greatest of a statistic over the scored rows.
pub open spec fn column_range(rows: Seq<RowView>, kind: MetricKind, k: int) -> (Num, Num)
    decreases rows.len(),
{
    if rows.len() == 0 {
        (Num { bits: INFINITE }, Num { bits: NEG_INFINITE })
    } else {
        let r = column_range(rows.drop_last(), kind, k);
        match rows.last().cache(kind).stats {
            Some(s) => (lower(r.0, s.values()[k]), upper(r.1, s.values()[k])),
            None => r,
        }
    }
}

/// The rank of a statistic; Butteraugli is better when lower throughout.
pub open spec fn stat_rank(kind: MetricKind, k: int, v: Num, range: (Num, Num)) -> StatRank {
    if lower_better(k) || kind is But {
        rank_low_of(v, range.0, range.1)
    } else {
        rank_of(v, range.0, range.1)
    }
}

/// The ranks of one row among all.
pub open spec fn row_ranks(rows: Seq<RowView>, kind: MetricKind, r: RowView) -> Seq<StatRank> {
    match r.cache(kind).stats {
        Some(s) => if scored(rows, kind) >= 2 {
            Seq::new(10, |k: int| stat_rank(kind, k, s.values()[k], column_range(rows, kind, k)))
        } else {
            tie_ranks()
        },
        None => plain_ranks(),
    }
}

/// The ranks of a lone result: it neither won nor lost.
pub open spec fn tie_ranks() -> Seq<StatRank> {
    Seq::new(10, |k: int| StatRank::Tie)
}

fn tie_ranks_of() -> (r: Vec<StatRank>)
    ensures
        r@ == tie_ranks(),
{
    let mut r: Vec<StatRank> = Vec::new();
    while r.len() < 10
        invariant
            r@.len() <= 10,
            forall|k: int| 0 <= k < r@.len() ==> #[trigger] r@[k] == StatRank::Tie,
        decreases 10 - r.len(),
    {
        r.push(StatRank::Tie);
    }
    assert(r@ =~= tie_ranks());
    r
}

/// A row with other ranks.
pub open spec fn with_ranks(r: RowView, kind: MetricKind, ranks: Seq<StatRank>) -> RowView {
    r.with_cache(kind, CacheView { ranks, ..r.cache(kind) })
}

/// All rows with the ranks of one metric renewed.
pub open spec fn reranked(rows: Seq<RowView>, kind: MetricKind) -> Seq<RowView> {
    rows.map_values(|r: RowView| with_ranks(r, kind, row_ranks(rows, kind, r)))
}

struct Ranges {
    lo: Vec<Num>,
    hi: Vec<Num>,
    scored: usize,
}

fn column_ranges(rows: &Vec<QueueRow>, kind: MetricKind) -> (r: Ranges)
    ensures
        r.lo@.len() == 10,
        r.hi@.len() == 10,
        r.scored == scored(row_views(rows@), kind),
        forall|k: int|
            0 <= k < 10 ==> (#[trigger] r.lo@[k], r.hi@[k]) == column_range(
                row_views(rows@),
                kind,
                k,
            ),
{
    let mut lo: Vec<Num> = Vec::new();
    let mut hi: Vec<Num> = Vec::new();
    let mut k: usize = 0;
    while k < 10
        invariant
            k <= 10,
            lo@.len() == k,
            hi@.len() == k,
            forall|j: int|
                0 <= j < k ==> #[trigger] lo@[j] == (Num { bits: INFINITE }) && hi@[j] == (Num {
                    bits: NEG_INFINITE,
                }),
        decreases 10 - k,
    {
        lo.push(Num { bits: INFINITE });
        hi.push(Num { bits: NEG_INFINITE });
        k += 1;
    }
    let ghost all = row_views(rows@);
    let mut count: usize = 0;
    let mut i: usize = 0;
    assert(all.take(0) =~= Seq::<RowView>::empty());
    while i < rows.len()
        invariant
            i <= rows@.len(),
            all == row_views(rows@),
            lo@.len() == 10,
            hi@.len() == 10,
            count <= i,
            count == scored(all.take(i as int), kind),
            forall|j: int|
                0 <= j < 10 ==> (#[trigger] lo@[j], hi@[j]) == column_range(
                    all.take(i as int),
                    kind,
                    j,
                ),
        decreases rows.len() - i,
    {
        assert(all.take(i + 1).drop_last() =~= all.take(i as int));
        assert(all.take(i + 1).last() == rows@[i as int]@);
        if let Some(s) = &rows[i].cached(kind).stats {
            count += 1;
            let comp = s.comparable();
            let mut k: usize = 0;
            while k < 10
                invariant
                    k <= 10,
                    lo@.len() == 10,
                    hi@.len() == 10,
                    comp@ == s.values(),
                    comp@.len() == 10,
                    rows@[i as int]@.cache(kind).stats == Some(*s),
                    all.take(i + 1).drop_last() == all.take(i as int),
                    all.take(i + 1).last() == rows@[i as int]@,
                    all.take(i + 1).len() > 0,
                    forall|j: int|
                        0 <= j < k ==> (#[trigger] lo@[j], hi@[j]) == column_range(
                            all.take(i + 1),
                            kind,
                            j,
                        ),
                    forall|j: int|
                        k <= j < 10 ==> (#[trigger] lo@[j], hi@[j]) == column_range(
                            all.take(i as int),
                            kind,
                            j,
                        ),
                decreases 10 - k,
            {
                let a = lower_of(lo[k], comp[k]);
                let b = upper_of(hi[k], comp[k]);
                assert((lo@[k as int], hi@[k as int]) == column_range(all.take(i as int), kind, k as int));
                lo.set(k, a);
                hi.set(k, b);
                k += 1;
            }
        } else {
            assert forall|j: int| 0 <= j < 10 implies (#[trigger] lo@[j], hi@[j]) == column_range(
                all.take(i + 1),
                kind,
                j,
            ) by {}
        }
        i += 1;
    }
    assert(all.take(i as int) =~= all);
    Ranges { lo, hi, scored: count }
}

fn ranks_of(s: &DoneStats, kind: MetricKind, r: &Ranges) -> (out: Vec<StatRank>)
    requires
        r.lo@.len() == 10,
        r.hi@.len() == 10,
    ensures
        out@ == Seq::new(10, |k: int| stat_rank(kind, k, s.values()[k], (r.lo@[k], r.hi@[k]))),
{
    let comp = s.comparable();
    let mut out: Vec<StatRank> = Vec::new();
    let mut k: usize = 0;
    let ghost want = Seq::new(
        10,
        |k: int| stat_rank(kind, k, s.values()[k], (r.lo@[k], r.hi@[k])),
    );
    while k < 10
        invariant
            k <= 10,
            r.lo@.len() == 10,
            r.hi@.len() == 10,
            comp@ == s.values(),
            comp@.len() == 10,
            want == Seq::new(
                10,
                |k: int| stat_rank(kind, k, s.values()[k], (r.lo@[k], r.hi@[k])),
            ),
            out@ =~= want.take(k as int),
        decreases 10 - k,
    {
        out.push(
            if k == 5 || matches!(kind, MetricKind::But) {
                rank_low(comp[k], r.lo[k], r.hi[k])
            } else {
                rank(comp[k], r.lo[k], r.hi[k])
            },
        );
        k += 1;
    }
    assert(want.take(10) =~= want);
    out
}

/// Renews the ranks of one metric in all rows.
pub fn refresh_ranks(rows: &mut Vec<QueueRow>, kind: MetricKind)
    ensures
        row_views(final(rows)@) == reranked(row_views(old(rows)@), kind),
{
    let ranges = column_ranges(rows, kind);
    let ghost old_rows = row_views(rows@);
    let n: usize = rows.len();
    let mut i: usize = 0;
    while i < n
        invariant
            i <= n,
            n == rows@.len(),
            n == old_rows.len(),
            ranges.lo@.len() == 10,
            ranges.hi@.len() == 10,
            ranges.scored == scored(old_rows, kind),
            forall|k: int|
                0 <= k < 10 ==> (#[trigger] ranges.lo@[k], ranges.hi@[k]) == column_range(
                    old_rows,
                    kind,
                    k,
                ),
            forall|j: int|
                0 <= j < i ==> (#[trigger] rows@[j])@ == with_ranks(
                    old_rows[j],
                    kind,
                    row_ranks(old_rows, kind, old_rows[j]),
                ),
            forall|j: int| i <= j < n ==> (#[trigger] rows@[j])@ == old_rows[j],
        decreases n - i,
    {
        let ranks: Vec<StatRank> = match &rows[i].cached(kind).stats {
            Some(s) => if ranges.scored >= 2 {
                ranks_of(s, kind, &ranges)
            } else {
                tie_ranks_of()
            },
            None => plain_ranks_of(),
        };
        assert(ranks@ =~= row_ranks(old_rows, kind, old_rows[i as int]));
        let row = &mut rows[i];
        let cache = row.cached_mut(kind);
        cache.ranks = ranks;
        i += 1;
    }
    assert(row_views(rows@) =~= reranked(old_rows, kind));
}

/// Renewing ranks changes nothing but ranks.
pub proof fn lemma_reranked_keeps_rows(rows: Seq<RowView>, kind: MetricKind, i: int)
    requires
        0 <= i < rows.len(),
        row_ok(rows[i]),
    ensures
        row_ok(reranked(rows, kind)[i]),
        reranked(rows, kind)[i].cells == rows[i].cells,
        forall|k: MetricKind|
            (#[trigger] reranked(rows, kind)[i].cache(k)).stats == rows[i].cache(k).stats,
{
    let r = reranked(rows, kind)[i];
    assert forall|k: MetricKind| (#[trigger] r.cache(k)).stats == rows[i].cache(k).stats by {
        if k.place() == kind.place() {
        }
    }
    assert forall|k: MetricKind| (#[trigger] r.cache(k)).stats is Some <==> finished(r.cell(k)) by {
        assert(rows[i].cache(k).stats is Some <==> finished(rows[i].cell(k)));
    }
}

/// A lone result ties in every statistic; a row without one has no rank.
pub proof fn lemma_lone_result_ties(rows: Seq<RowView>, kind: MetricKind, i: int)
    requires
        0 <= i < rows.len(),
        row_ok(rows[i]),
        scored(rows, kind) == 1,
    ensures
        reranked(rows, kind)[i].cache(kind).ranks == (if rows[i].cache(kind).stats is Some {
            tie_ranks()
        } else {
            plain_ranks()
        }),
{
}

// ---- What ranks, clicks and changed settings come to ----

/// The statistic of a row, where it is scored.
pub open spec fn stat_at(r: RowView, kind: MetricKind, k: int) -> Num {
    r.cache(kind).stats->0.values()[k]
}

/// Whether a row is scored.
pub open spec fn has_score(r: RowView, kind: MetricKind) -> bool {
    r.cache(kind).stats is Some
}

proof fn lemma_scored_counts(rows: Seq<RowView>, kind: MetricKind, i: int, j: int)
    requires
        0 <= i <= j < rows.len(),
        has_score(rows[i], kind) && has_score(rows[j], kind),
    ensures
        scored(rows, kind) >= (if i < j {
            2nat
        } else {
            1nat
        }),
    decreases rows.len(),
{
    let head = rows.drop_last();
    if j < head.len() {
        lemma_scored_counts(head, kind, i, j);
    } else if i < j {
        lemma_scored_counts(head, kind, i, i);
    }
}

proof fn lemma_column_range(rows: Seq<RowView>, kind: MetricKind, k: int)
    requires
        forall|j: int|
            0 <= j < rows.len() && has_score(#[trigger] rows[j], kind) ==> !stat_at(rows[j], kind, k).nan(),
    ensures
        ({
            let r = column_range(rows, kind, k);
            &&& !r.0.nan() && !r.1.nan()
            &&& forall|j: int|
                0 <= j < rows.len() && has_score(#[trigger] rows[j], kind) ==> r.0.place() <= stat_at(
                    rows[j],
                    kind,
                    k,
                ).place() <= r.1.place()
            &&& (exists|j: int| 0 <= j < rows.len() && has_score(#[trigger] rows[j], kind)) ==> {
                &&& exists|j: int|
                    0 <= j < rows.len() && has_score(#[trigger] rows[j], kind) && stat_at(
                        rows[j],
                        kind,
                        k,
                    ).place() == r.0.place()
                &&& exists|j: int|
                    0 <= j < rows.len() && has_score(#[trigger] rows[j], kind) && stat_at(
                        rows[j],
                        kind,
                        k,
                    ).place() == r.1.place()
            }
            &&& (forall|j: int| 0 <= j < rows.len() ==> !has_score(#[trigger] rows[j], kind)) ==> r == (
                Num { bits: INFINITE },
                Num { bits: NEG_INFINITE },
            )
        }),
    decreases rows.len(),
{
    if rows.len() > 0 {
        let head = rows.drop_last();
        let n = rows.len() - 1;
        assert forall|j: int| 0 <= j < n implies #[trigger] rows[j] == head[j] by {}
        assert forall|j: int| 0 <= j < head.len() && has_score(#[trigger] head[j], kind) implies !stat_at(
            head[j],
            kind,
            k,
        ).nan() by {
            assert(rows[j] == head[j]);
        }
        lemma_column_range(head, kind, k);
        let h = column_range(head, kind, k);
        let r = column_range(rows, kind, k);
        if exists|j: int| 0 <= j < head.len() && has_score(#[trigger] head[j], kind) {
            let a = choose|j: int|
                0 <= j < head.len() && has_score(#[trigger] head[j], kind) && stat_at(
                    head[j],
                    kind,
                    k,
                ).place() == h.0.place();
            let b = choose|j: int|
                0 <= j < head.len() && has_score(#[trigger] head[j], kind) && stat_at(
                    head[j],
                    kind,
                    k,
                ).place() == h.1.place();
            assert(rows[a] == head[a] && rows[b] == head[b]);
        }
        assert(rows[n] == rows.last());
        if has_score(rows[n], kind) {
            let v = stat_at(rows[n], kind, k);
            assert(r.0 == lower(h.0, v) && r.1 == upper(h.1, v));
        }
    }
}

/// Among at least two scored rows, a statistic is best where no row has a
/// better one and some row has a worse one, and worst where no row has a worse
/// one and some row has a better one. Where all are equal they tie, and one
/// between two others has no rank. Less is better for Butteraugli and for the
/// spread, which is the sixth statistic; more is better for all else.
pub proof fn lemma_ranks_compare_all_rows(rows: Seq<RowView>, kind: MetricKind, i: int, other: int, k: int)
    requires
        0 <= i < rows.len() && 0 <= other < rows.len() && i != other,
        0 <= k < 10,
        forall|j: int| 0 <= j < rows.len() ==> (#[trigger] rows[j]).caches.len() == 7,
        has_score(rows[i], kind) && has_score(rows[other], kind),
        forall|j: int|
            0 <= j < rows.len() && has_score(#[trigger] rows[j], kind) ==> !stat_at(rows[j], kind, k).nan(),
    ensures
        ({
            let rank = reranked(rows, kind)[i].cache(kind).ranks[k];
            let v = stat_at(rows[i], kind, k);
            let some_less = exists|j: int|
                0 <= j < rows.len() && has_score(#[trigger] rows[j], kind) && stat_at(
                    rows[j],
                    kind,
                    k,
                ).less(v);
            let some_more = exists|j: int|
                0 <= j < rows.len() && has_score(#[trigger] rows[j], kind) && v.less(
                    stat_at(rows[j], kind, k),
                );
            let (better, worse) = if kind is But || k == 5 {
                (some_less, some_more)
            } else {
                (some_more, some_less)
            };
            &&& rank is Best <==> !better && worse
            &&& rank is Worst <==> better && !worse
            &&& rank is Tie <==> !better && !worse
            &&& rank is Plain <==> better && worse
        }),
{
    if i < other {
        lemma_scored_counts(rows, kind, i, other);
    } else {
        lemma_scored_counts(rows, kind, other, i);
    }
    lemma_column_range(rows, kind, k);
    let r = column_range(rows, kind, k);
    let v = stat_at(rows[i], kind, k);
    let a = choose|j: int|
        0 <= j < rows.len() && has_score(#[trigger] rows[j], kind) && stat_at(rows[j], kind, k).place()
            == r.0.place();
    let b = choose|j: int|
        0 <= j < rows.len() && has_score(#[trigger] rows[j], kind) && stat_at(rows[j], kind, k).place()
            == r.1.place();
    assert(has_score(rows[a], kind) && has_score(rows[b], kind));
    let ranks = row_ranks(rows, kind, rows[i]);
    assert(reranked(rows, kind)[i] == with_ranks(rows[i], kind, ranks));
    assert(reranked(rows, kind)[i].cache(kind).ranks == ranks);
    assert(ranks[k] == stat_rank(kind, k, v, r));
    if exists|j: int|
        0 <= j < rows.len() && has_score(#[trigger] rows[j], kind) && stat_at(rows[j], kind, k).less(v) {
        assert(r.0.place() < v.place());
    } else {
        assert(!stat_at(rows[a], kind, k).less(v));
    }
    if exists|j: int|
        0 <= j < rows.len() && has_score(#[trigger] rows[j], kind) && v.less(stat_at(rows[j], kind, k)) {
        assert(r.1.place() > v.place());
    } else {
        assert(!v.less(stat_at(rows[b], kind, k)));
    }
}

/// A result is stale once the part of the video that is looked at has changed,
/// for VMAF also once its options have, and for what ffmpeg computes also once
/// scaling, framerate or pixel format have; and not before. What is no result
/// is never stale.
pub proof fn lemma_changed_settings_make_stale(kind: MetricKind, cell: CellView, cur: StampView)
    ensures
        cell is Done ==> {
            let run = cell->stamp;
            let other_skip = match (run.skip, cur.skip) {
                (Some(x), Some(y)) => !x.equal(y),
                (None, None) => false,
                _ => true,
            };
            let other_clip = match (run.clip_dur, cur.clip_dur) {
                (Some(x), Some(y)) => !x.equal(y),
                (None, None) => false,
                _ => true,
            };
            let other_options = kind is Vmaf && run.vmaf_cfg != cur.vmaf_cfg;
            let other_picture = (kind is Psnr || kind is Ssim || kind is Vmaf || kind is Xpsnr) && (
            run.scaler != cur.scaler || run.fps_mode != cur.fps_mode || run.ref_pixfmt
                != cur.ref_pixfmt);
            stale(kind, cell, cur) <==> other_skip || other_clip || other_options || other_picture
        },
        !(cell is Done) ==> !stale(kind, cell, cur),
{
}

/// A first click on a metric's column shows the best first: the least of
/// Butteraugli and of the spread, the greatest of all else. One on the names
/// shows them from A to Z.
pub proof fn lemma_first_click_shows_best_first(
    rows: Seq<RowView>,
    kind: MetricKind,
    stat: CellStat,
    a: int,
    b: int,
)
    requires
        rows.len() <= usize::MAX,
        0 <= a < b < rows.len(),
    ensures
        ({
            let v = shown_order(rows, cycled(None, SortColumn::Metric(kind), stat), stat);
            let x = sort_value(rows[v[a] as int], kind, stat);
            let y = sort_value(rows[v[b] as int], kind, stat);
            &&& x is None ==> y is None
            &&& x is Some && y is Some && (kind is But || stat is StdDev) ==> x->0.total()
                <= y->0.total()
            &&& x is Some && y is Some && !(kind is But || stat is StdDev) ==> x->0.total()
                >= y->0.total()
        }),
        ({
            let v = shown_order(rows, cycled(None, SortColumn::Path, stat), stat);
            !text_less(rows[v[b] as int].display, rows[v[a] as int].display)
        }),
{
    lemma_sorted_by_metric(rows, kind, first_dir(SortColumn::Metric(kind), stat), stat, a, b);
    lemma_sorted_by_path(rows, SortDir::Asc, stat, a, b);
}

/// Rows are sorted by the statistic that is named.
pub proof fn lemma_rows_sort_by_named_statistic(r: RowView, kind: MetricKind, stat: CellStat)
    ensures
        r.cache(kind).stats is None <==> sort_value(r, kind, stat) is None,
        r.cache(kind).stats is Some ==> sort_value(r, kind, stat) == Some(
            match stat {
                CellStat::Avg => r.cache(kind).stats->0.avg,
                CellStat::Mean => r.cache(kind).stats->0.mean,
                CellStat::Harm => r.cache(kind).stats->0.harm,
                CellStat::Min => r.cache(kind).stats->0.min,
                CellStat::Max => r.cache(kind).stats->0.max,
                CellStat::StdDev => r.cache(kind).stats->0.stddev,
                CellStat::P1 => r.cache(kind).stats->0.p1,
                CellStat::P5 => r.cache(kind).stats->0.p5,
                CellStat::P10 => r.cache(kind).stats->0.p10,
                CellStat::P25 => r.cache(kind).stats->0.p25,
            },
        ),
{
}

proof fn lemma_shown_at(view: Seq<usize>, p: int, from: int)
    requires
        0 <= from <= p < view.len(),
        forall|a: int, b: int| 0 <= a < b < view.len() ==> #[trigger] view[a] != #[trigger] view[b],
    ensures
        shown_at(view, view[p], from) == Some(p),
    decreases p - from,
{
    if from < p {
        assert(view[from] != view[p]);
        lemma_shown_at(view, p, from + 1);
    }
}

/// A click with Shift makes all rows that are shown from the last clicked one
/// to this one, both included, what this one becomes, whichever of the two is
/// shown first. No other row changes.
pub proof fn lemma_shift_click_fills_the_span(
    f: Seq<bool>,
    view: Seq<usize>,
    from: int,
    to: int,
    p: int,
)
    requires
        view.len() == f.len(),
        forall|a: int| 0 <= a < view.len() ==> 0 <= #[trigger] view[a] < f.len(),
        forall|a: int, b: int| 0 <= a < b < view.len() ==> #[trigger] view[a] != #[trigger] view[b],
        0 <= from < view.len() && 0 <= to < view.len() && 0 <= p < view.len(),
    ensures
        ({
            let i = view[to] as int;
            let after = clicked(f, i, false, true, Some(view[from]), view);
            &&& after.len() == f.len()
            &&& from <= p <= to || to <= p <= from ==> after[view[p] as int] == !f[i]
            &&& !(from <= p <= to || to <= p <= from) ==> after[view[p] as int] == f[view[p] as int]
        }),
{
    lemma_shown_at(view, from, 0);
    lemma_shown_at(view, to, 0);
    let lo = if from <= to {
        from
    } else {
        to
    };
    let hi = if from <= to {
        to
    } else {
        from
    };
    let u = view[p] as int;
    if lo <= p <= hi {
        assert(in_span(view, lo, hi, u));
    } else if in_span(view, lo, hi, u) {
        let q = choose|q: int| lo <= q <= hi && 0 <= q < view.len() && #[trigger] view[q] == u;
        if q < p {
            assert(view[q] != view[p]);
        } else {
            assert(view[p] != view[q]);
        }
    }
}

} // verus!
