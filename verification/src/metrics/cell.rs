//! One metric of one queued file: its cell, its statistics, and how they rank
//! among the other files'.
use vstd::prelude::*;
use vstd::string::StringExecFns;
use crate::metrics::ffmpeg::ScaleMethod;
use crate::metrics::vmaf::{copy_vmaf, opt_vmaf, VmafCfg, VmafView};
use crate::num::Num;
use crate::order::{order_of, stable_order, the_order};
use crate::text::{dec, dec_u64, dec_usize, join, joined, put, same, texts};

verus! {

/// What a finished run was computed under.
#[derive(Debug)]
pub struct Stamp {
    pub skip: Option<Num>,
    pub clip_dur: Option<Num>,
    /// For VMAF alone.
    pub vmaf_cfg: Option<VmafCfg>,
    pub scaler: ScaleMethod,
    /// The input framerate option.
    pub fps_mode: String,
    /// The pixel-format option.
    pub ref_pixfmt: String,
}

pub struct StampView {
    pub skip: Option<Num>,
    pub clip_dur: Option<Num>,
    pub vmaf_cfg: Option<VmafView>,
    pub scaler: ScaleMethod,
    pub fps_mode: Seq<char>,
    pub ref_pixfmt: Seq<char>,
}

impl View for Stamp {
    type V = StampView;

    open spec fn view(&self) -> StampView {
        StampView {
            skip: self.skip,
            clip_dur: self.clip_dur,
            vmaf_cfg: opt_vmaf(self.vmaf_cfg),
            scaler: self.scaler,
            fps_mode: self.fps_mode@,
            ref_pixfmt: self.ref_pixfmt@,
        }
    }
}

impl Stamp {
    pub fn copy(&self) -> (r: Stamp)
        ensures
            r@ == self@,
    {
        Stamp {
            skip: self.skip,
            clip_dur: self.clip_dur,
            vmaf_cfg: copy_vmaf(&self.vmaf_cfg),
            scaler: self.scaler,
            fps_mode: self.fps_mode.clone(),
            ref_pixfmt: self.ref_pixfmt.clone(),
        }
    }
}

/// The state of one metric on one queued file.
#[derive(Debug)]
pub enum MetricCell {
    Idle,
    Running { frame: u64, values: Vec<Num> },
    Done { values: Vec<Num>, avg: Num, exec_s: Num, stamp: Stamp },
    Error { msg: String },
}

pub enum CellView {
    Idle,
    Running { frame: u64, values: Seq<Num> },
    Done { values: Seq<Num>, avg: Num, exec_s: Num, stamp: StampView },
    Error { msg: Seq<char> },
}

impl View for MetricCell {
    type V = CellView;

    open spec fn view(&self) -> CellView {
        match self {
            MetricCell::Idle => CellView::Idle,
            MetricCell::Running { frame, values } => CellView::Running {
                frame: *frame,
                values: values@,
            },
            MetricCell::Done { values, avg, exec_s, stamp } => CellView::Done {
                values: values@,
                avg: *avg,
                exec_s: *exec_s,
                stamp: stamp@,
            },
            MetricCell::Error { msg } => CellView::Error { msg: msg@ },
        }
    }
}

impl Default for MetricCell {
    fn default() -> (r: MetricCell)
        ensures
            r@ == CellView::Idle,
    {
        MetricCell::Idle
    }
}

impl MetricCell {
    pub fn is_done(&self) -> (r: bool)
        ensures
            r == (self@ is Done),
    {
        matches!(self, MetricCell::Done { .. })
    }

    pub fn is_running(&self) -> (r: bool)
        ensures
            r == (self@ is Running),
    {
        matches!(self, MetricCell::Running { .. })
    }

    /// Whether the cell holds a finished series with values.
    pub fn has_values(&self) -> (r: bool)
        ensures
            r == finished(self@),
    {
        match self {
            MetricCell::Done { values, .. } => values.len() > 0,
            _ => false,
        }
    }

    /// The text of the cell; `shown` is the printed pooled value of a finished
    /// one.
    pub fn cell_text(&self, shown: &str) -> (r: String)
        ensures
            r@ == short_text(self@, shown@),
    {
        match self {
            MetricCell::Idle => "N/A".to_owned(),
            MetricCell::Running { frame, .. } => {
                let mut s = "Frame: ".to_owned();
                s.append(dec_u64(*frame).as_str());
                s
            },
            MetricCell::Done { .. } => shown.to_owned(),
            MetricCell::Error { msg } => msg.clone(),
        }
    }

    /// The hover text of the cell; `stats` is the printed statistics of a
    /// finished one.
    pub fn tooltip(&self, title: &str, stats: &str) -> (r: String)
        ensures
            r@ == hover_text(self@, title@, stats@),
    {
        match self {
            MetricCell::Idle => "No data yet".to_owned(),
            MetricCell::Running { .. } => "Computing…".to_owned(),
            MetricCell::Done { .. } => {
                let mut s = title.to_owned();
                s.append("\n");
                s.append(stats);
                s
            },
            MetricCell::Error { msg } => {
                let mut s = "Error: ".to_owned();
                s.append(msg.as_str());
                s
            },
        }
    }
}

/// A finished series with values.
pub open spec fn finished(c: CellView) -> bool {
    match c {
        CellView::Done { values, .. } => values.len() > 0,
        _ => false,
    }
}

pub open spec fn short_text(c: CellView, shown: Seq<char>) -> Seq<char> {
    match c {
        CellView::Idle => "N/A"@,
        CellView::Running { frame, .. } => "Frame: "@ + dec(frame as nat),
        CellView::Done { .. } => shown,
        CellView::Error { msg } => msg,
    }
}

pub open spec fn hover_text(c: CellView, title: Seq<char>, stats: Seq<char>) -> Seq<char> {
    match c {
        CellView::Idle => "No data yet"@,
        CellView::Running { .. } => "Computing…"@,
        CellView::Done { .. } => title + "\n"@ + stats,
        CellView::Error { msg } => "Error: "@ + msg,
    }
}

// ---- Ranks ----

/// How a statistic ranks among those of all files.
#[derive(Debug, Clone, Copy, PartialEq, Eq, Structural)]
pub enum StatRank {
    /// The best of all.
    Best,
    /// The worst of all.
    Worst,
    /// There is one alone, or all are equal.
    Tie,
    /// In between, or not to be ranked.
    Plain,
}

impl Default for StatRank {
    fn default() -> (r: StatRank)
        ensures
            r == StatRank::Plain,
    {
        StatRank::Plain
    }
}

/// The rank of `v` between the column's least and greatest value, where the
/// greatest wins.
pub open spec fn rank_of(v: Num, lo: Num, hi: Num) -> StatRank {
    if lo.equal(hi) {
        StatRank::Tie
    } else if v.equal(hi) {
        StatRank::Best
    } else if v.equal(lo) {
        StatRank::Worst
    } else {
        StatRank::Plain
    }
}

/// The rank where the least wins.
pub open spec fn rank_low_of(v: Num, lo: Num, hi: Num) -> StatRank {
    if lo.equal(hi) {
        StatRank::Tie
    } else if v.equal(lo) {
        StatRank::Best
    } else if v.equal(hi) {
        StatRank::Worst
    } else {
        StatRank::Plain
    }
}

pub fn rank(v: Num, lo: Num, hi: Num) -> (r: StatRank)
    ensures
        r == rank_of(v, lo, hi),
{
    if lo.is_equal(hi) {
        StatRank::Tie
    } else if v.is_equal(hi) {
        StatRank::Best
    } else if v.is_equal(lo) {
        StatRank::Worst
    } else {
        StatRank::Plain
    }
}

pub fn rank_low(v: Num, lo: Num, hi: Num) -> (r: StatRank)
    ensures
        r == rank_low_of(v, lo, hi),
{
    if lo.is_equal(hi) {
        StatRank::Tie
    } else if v.is_equal(lo) {
        StatRank::Best
    } else if v.is_equal(hi) {
        StatRank::Worst
    } else {
        StatRank::Plain
    }
}

/// Best and worst change places.
pub open spec fn swapped(r: StatRank) -> StatRank {
    match r {
        StatRank::Best => StatRank::Worst,
        StatRank::Worst => StatRank::Best,
        _ => r,
    }
}

/// What wins under one rule loses under the other.
pub proof fn lemma_ranks_are_dual(v: Num, lo: Num, hi: Num)
    ensures
        rank_low_of(v, lo, hi) == swapped(rank_of(v, lo, hi)),
{
    if v.equal(lo) && v.equal(hi) {
        assert(lo.equal(hi));
    }
}

// ---- Statistics ----

/// Which statistic the cells show.
#[derive(Debug, Clone, Copy, PartialEq, Eq, Structural)]
pub enum CellStat {
    Avg,
    Mean,
    Harm,
    Min,
    Max,
    StdDev,
    P1,
    P5,
    P10,
    P25,
}

impl CellStat {
    pub open spec fn place(self) -> int {
        match self {
            CellStat::Avg => 0,
            CellStat::Mean => 1,
            CellStat::Harm => 2,
            CellStat::Min => 3,
            CellStat::Max => 4,
            CellStat::StdDev => 5,
            CellStat::P1 => 6,
            CellStat::P5 => 7,
            CellStat::P10 => 8,
            CellStat::P25 => 9,
        }
    }

    /// The place of the statistic in a tooltip.
    pub fn index(self) -> (r: usize)
        ensures
            r == self.place(),
            r < 10,
    {
        match self {
            CellStat::Avg => 0,
            CellStat::Mean => 1,
            CellStat::Harm => 2,
            CellStat::Min => 3,
            CellStat::Max => 4,
            CellStat::StdDev => 5,
            CellStat::P1 => 6,
            CellStat::P5 => 7,
            CellStat::P10 => 8,
            CellStat::P25 => 9,
        }
    }
}

impl CellStat {
    pub open spec fn label_text(self) -> Seq<char> {
        match self {
            CellStat::Avg => "Avg"@,
            CellStat::Mean => "Mean"@,
            CellStat::Harm => "Mean (harm)"@,
            CellStat::Min => "Min"@,
            CellStat::Max => "Max"@,
            CellStat::StdDev => "StdDev (pop)"@,
            CellStat::P1 => "Percentile 1"@,
            CellStat::P5 => "Percentile 5"@,
            CellStat::P10 => "Percentile 10"@,
            CellStat::P25 => "Percentile 25"@,
        }
    }

    /// How the statistic is offered.
    pub fn label(self) -> (r: &'static str)
        ensures
            r@ == self.label_text(),
    {
        match self {
            CellStat::Avg => "Avg",
            CellStat::Mean => "Mean",
            CellStat::Harm => "Mean (harm)",
            CellStat::Min => "Min",
            CellStat::Max => "Max",
            CellStat::StdDev => "StdDev (pop)",
            CellStat::P1 => "Percentile 1",
            CellStat::P5 => "Percentile 5",
            CellStat::P10 => "Percentile 10",
            CellStat::P25 => "Percentile 25",
        }
    }

    /// All statistics, in the order in which they are offered.
    pub fn all() -> (r: Vec<CellStat>)
        ensures
            r@ == all_stats(),
    {
        let mut r: Vec<CellStat> = Vec::new();
        r.push(CellStat::Avg);
        r.push(CellStat::Mean);
        r.push(CellStat::Harm);
        r.push(CellStat::Min);
        r.push(CellStat::Max);
        r.push(CellStat::StdDev);
        r.push(CellStat::P1);
        r.push(CellStat::P5);
        r.push(CellStat::P10);
        r.push(CellStat::P25);
        assert(r@ =~= all_stats());
        r
    }

    /// The statistic that is offered under a label; the average where none is.
    pub fn from_label(label: &str) -> (r: CellStat)
        ensures
            forall|s: CellStat| #[trigger] s.label_text() == label@ ==> r == s,
            (forall|s: CellStat| #[trigger] s.label_text() != label@) ==> r is Avg,
    {
        let all = CellStat::all();
        let mut i: usize = 0;
        while i < all.len()
            invariant
                i <= all@.len(),
                all@ == all_stats(),
                forall|j: int| 0 <= j < i ==> (#[trigger] all@[j]).label_text() != label@,
            decreases all.len() - i,
        {
            if same(all[i].label(), label) {
                proof {
                    assert forall|s: CellStat| #[trigger] s.label_text() == label@ implies s
                        == all@[i as int] by {
                        lemma_stat_labels_distinct(s, all@[i as int]);
                    }
                }
                return all[i];
            }
            i += 1;
        }
        assert forall|s: CellStat| #[trigger] s.label_text() != label@ by {
            assert(all@[s.place()] == s);
        }
        CellStat::Avg
    }
}

/// The statistics in the order in which they are offered.
pub open spec fn all_stats() -> Seq<CellStat> {
    seq![
        CellStat::Avg,
        CellStat::Mean,
        CellStat::Harm,
        CellStat::Min,
        CellStat::Max,
        CellStat::StdDev,
        CellStat::P1,
        CellStat::P5,
        CellStat::P10,
        CellStat::P25,
    ]
}

/// No two statistics share a label.
pub proof fn lemma_stat_labels_distinct(a: CellStat, b: CellStat)
    requires
        a.label_text() == b.label_text(),
    ensures
        a == b,
{
    reveal_strlit("Avg");
    reveal_strlit("Mean");
    reveal_strlit("Mean (harm)");
    reveal_strlit("Min");
    reveal_strlit("Max");
    reveal_strlit("StdDev (pop)");
    reveal_strlit("Percentile 1");
    reveal_strlit("Percentile 5");
    reveal_strlit("Percentile 10");
    reveal_strlit("Percentile 25");
    let (x, y) = (a.label_text(), b.label_text());
    assert(x.len() == y.len());
    assert(x[0] == y[0]);
    assert(x[1] == y[1]);
    assert(x[x.len() - 1] == y[y.len() - 1]);
}

/// The statistics of a finished run.
#[derive(Debug, Clone, Copy)]
pub struct DoneStats {
    pub avg: Num,
    pub mean: Num,
    pub harm: Num,
    pub min: Num,
    pub max: Num,
    pub stddev: Num,
    pub p1: Num,
    pub p5: Num,
    pub p10: Num,
    pub p25: Num,
    pub exec_s: Num,
    pub frames: usize,
}

/// What arithmetic says of a series: its means and spread, and where in its
/// sorted values the percentiles stand.
#[derive(Debug, Clone, Copy)]
pub struct Moments {
    pub mean: Num,
    pub harm: Num,
    pub stddev: Num,
    pub p1_at: usize,
    pub p5_at: usize,
    pub p10_at: usize,
    pub p25_at: usize,
}

pub open spec fn num_keys(values: Seq<Num>) -> Seq<i128> {
    values.map_values(|v: Num| v.total() as i128)
}

/// The values from the least to the greatest.
pub open spec fn ranked(values: Seq<Num>) -> Seq<Num> {
    the_order(num_keys(values)).map_values(|i: usize| values[i as int])
}

pub fn num_keys_of(values: &Vec<Num>) -> (r: Vec<i128>)
    ensures
        r@ == num_keys(values@),
{
    let mut r: Vec<i128> = Vec::new();
    let mut i: usize = 0;
    assert(r@ =~= num_keys(values@.take(0)));
    while i < values.len()
        invariant
            i <= values@.len(),
            r@ == num_keys(values@.take(i as int)),
        decreases values.len() - i,
    {
        r.push(values[i].total_key() as i128);
        i += 1;
        assert(r@ =~= num_keys(values@.take(i as int)));
    }
    assert(values@.take(i as int) =~= values@);
    r
}

/// The values from the least to the greatest.
pub fn sorted_values(values: &Vec<Num>) -> (r: Vec<Num>)
    ensures
        r@ == ranked(values@),
        r@.len() == values@.len(),
{
    let keys = num_keys_of(values);
    let p = order_of(&keys);
    let ghost pick = |i: usize| values@[i as int];
    let mut r: Vec<Num> = Vec::new();
    let mut a: usize = 0;
    assert(r@ =~= p@.take(0).map_values(pick));
    while a < p.len()
        invariant
            a <= p@.len(),
            pick == (|i: usize| values@[i as int]),
            stable_order(num_keys(values@), p@),
            p@.len() == values@.len(),
            r@ == p@.take(a as int).map_values(pick),
        decreases p.len() - a,
    {
        assert(p@[a as int] < values@.len());
        r.push(values[p[a]]);
        a += 1;
        assert(r@ =~= p@.take(a as int).map_values(pick));
    }
    assert(p@.take(a as int) =~= p@);
    r
}

/// The sorted values hold the same values, in ascending total order.
pub proof fn lemma_ranked(values: Seq<Num>)
    requires
        values.len() <= usize::MAX,
    ensures
        ranked(values).len() == values.len(),
        forall|a: int, b: int|
            0 <= a < b < values.len() ==> (#[trigger] ranked(values)[a]).total() <= (
            #[trigger] ranked(values)[b]).total(),
        forall|v: Num| ranked(values).contains(v) <==> #[trigger] values.contains(v),
{
    crate::order::lemma_the_order(num_keys(values));
    let p = the_order(num_keys(values));
    let r = ranked(values);
    assert forall|a: int, b: int| 0 <= a < b < values.len() implies (#[trigger] r[a]).total() <= (
    #[trigger] r[b]).total() by {
        assert(crate::order::before(num_keys(values), p[a] as int, p[b] as int));
    }
    assert forall|v: Num| r.contains(v) <==> #[trigger] values.contains(v) by {
        if r.contains(v) {
            let a = choose|a: int| 0 <= a < r.len() && r[a] == v;
            assert(values[p[a] as int] == v);
        }
        if values.contains(v) {
            let i = choose|i: int| 0 <= i < values.len() && values[i] == v;
            assert(p.contains(i as usize));
            let a = choose|a: int| 0 <= a < p.len() && p[a] == i as usize;
            assert(r[a] == v);
        }
    }
}

impl DoneStats {
    /// The statistics of a series; none for an empty one.
    pub fn new(values: &Vec<Num>, avg: Num, exec_s: Num, m: Moments) -> (r: Option<DoneStats>)
        requires
            values@.len() > 0 ==> m.p1_at < values@.len() && m.p5_at < values@.len() && m.p10_at
                < values@.len() && m.p25_at < values@.len(),
        ensures
            r == stats_of(values@, avg, exec_s, m),
    {
        if values.len() == 0 {
            return None;
        }
        let s = sorted_values(values);
        Some(
            DoneStats {
                avg,
                mean: m.mean,
                harm: m.harm,
                min: s[0],
                max: s[s.len() - 1],
                stddev: m.stddev,
                p1: s[m.p1_at],
                p5: s[m.p5_at],
                p10: s[m.p10_at],
                p25: s[m.p25_at],
                exec_s,
                frames: values.len(),
            },
        )
    }

    pub open spec fn values(self) -> Seq<Num> {
        seq![
            self.avg,
            self.mean,
            self.harm,
            self.min,
            self.max,
            self.stddev,
            self.p1,
            self.p5,
            self.p10,
            self.p25,
        ]
    }

    /// The statistics that compare across files, in tooltip order.
    pub fn comparable(&self) -> (r: Vec<Num>)
        ensures
            r@ == self.values(),
    {
        let r = vec![
            self.avg,
            self.mean,
            self.harm,
            self.min,
            self.max,
            self.stddev,
            self.p1,
            self.p5,
            self.p10,
            self.p25,
        ];
        assert(r@ =~= self.values());
        r
    }

    /// One statistic.
    pub fn value(&self, stat: CellStat) -> (r: Num)
        ensures
            r == self.values()[stat.place()],
    {
        match stat {
            CellStat::Avg => self.avg,
            CellStat::Mean => self.mean,
            CellStat::Harm => self.harm,
            CellStat::Min => self.min,
            CellStat::Max => self.max,
            CellStat::StdDev => self.stddev,
            CellStat::P1 => self.p1,
            CellStat::P5 => self.p5,
            CellStat::P10 => self.p10,
            CellStat::P25 => self.p25,
        }
    }
}

pub open spec fn stats_of(values: Seq<Num>, avg: Num, exec_s: Num, m: Moments) -> Option<DoneStats> {
    if values.len() == 0 {
        None
    } else {
        let s = ranked(values);
        Some(
            DoneStats {
                avg,
                mean: m.mean,
                harm: m.harm,
                min: s[0],
                max: s[values.len() - 1],
                stddev: m.stddev,
                p1: s[m.p1_at as int],
                p5: s[m.p5_at as int],
                p10: s[m.p10_at as int],
                p25: s[m.p25_at as int],
                exec_s,
                frames: values.len() as usize,
            },
        )
    }
}

/// The label of a statistic in a tooltip.
pub open spec fn label_of(k: int) -> Seq<char> {
    if k == 0 {
        "Avg:"@
    } else if k == 1 {
        "Mean:"@
    } else if k == 2 {
        "Mean (harm):"@
    } else if k == 3 {
        "Min:"@
    } else if k == 4 {
        "Max:"@
    } else if k == 5 {
        "StdDev (pop):"@
    } else if k == 6 {
        "Percentile 1:"@
    } else if k == 7 {
        "Percentile 5:"@
    } else if k == 8 {
        "Percentile 10:"@
    } else {
        "Percentile 25:"@
    }
}

/// The label of a statistic in a tooltip.
pub fn stat_label(k: usize) -> (r: &'static str)
    requires
        k < 10,
    ensures
        r@ == label_of(k as int),
{
    match k {
        0 => "Avg:",
        1 => "Mean:",
        2 => "Mean (harm):",
        3 => "Min:",
        4 => "Max:",
        5 => "StdDev (pop):",
        6 => "Percentile 1:",
        7 => "Percentile 5:",
        8 => "Percentile 10:",
        _ => "Percentile 25:",
    }
}

/// One line of the statistics: a label and a printed number.
pub open spec fn stat_line(k: int, printed: Seq<Seq<char>>) -> Seq<char> {
    label_of(k) + " "@ + printed[k]
}

pub open spec fn stat_lines(printed: Seq<Seq<char>>, exec: Seq<char>, frames: nat) -> Seq<Seq<char>> {
    seq![
        stat_line(0, printed),
        "Exec time: "@ + exec,
        "Frames count: "@ + dec(frames),
        Seq::empty(),
        "Frames statistics"@,
        stat_line(1, printed),
        stat_line(2, printed),
        stat_line(3, printed),
        stat_line(4, printed),
        stat_line(5, printed),
        Seq::empty(),
        stat_line(6, printed),
        stat_line(7, printed),
        stat_line(8, printed),
        stat_line(9, printed),
    ]
}

fn put_stat(v: &mut Vec<String>, k: usize, printed: &Vec<String>)
    requires
        k < 10,
        printed@.len() == 10,
    ensures
        texts(final(v)@) == texts(old(v)@).push(stat_line(k as int, texts(printed@))),
{
    let mut s = stat_label(k).to_owned();
    s.append(" ");
    s.append(printed[k].as_str());
    assert(texts(printed@)[k as int] == printed@[k as int]@);
    put(v, s.as_str());
}

/// The statistics of a finished run as text, given as printed: the ten in
/// tooltip order, and how long the run took.
pub fn stats_text(printed: &Vec<String>, exec: &str, frames: usize) -> (r: String)
    requires
        printed@.len() == 10,
    ensures
        r@ == (if frames == 0 {
            "No data"@
        } else {
            join(stat_lines(texts(printed@), exec@, frames as nat), "\n"@)
        }),
{
    if frames == 0 {
        return "No data".to_owned();
    }
    let mut v: Vec<String> = Vec::new();
    put_stat(&mut v, 0, printed);
    let mut e = "Exec time: ".to_owned();
    e.append(exec);
    put(&mut v, e.as_str());
    let mut n = "Frames count: ".to_owned();
    n.append(dec_usize(frames).as_str());
    put(&mut v, n.as_str());
    put(&mut v, String::new().as_str());
    put(&mut v, "Frames statistics");
    put_stat(&mut v, 1, printed);
    put_stat(&mut v, 2, printed);
    put_stat(&mut v, 3, printed);
    put_stat(&mut v, 4, printed);
    put_stat(&mut v, 5, printed);
    put(&mut v, String::new().as_str());
    put_stat(&mut v, 6, printed);
    put_stat(&mut v, 7, printed);
    put_stat(&mut v, 8, printed);
    put_stat(&mut v, 9, printed);
    assert(texts(v@) =~= stat_lines(texts(printed@), exec@, frames as nat));
    joined(&v, "\n")
}

/// Only the spread is better when lower.
pub open spec fn lower_better(k: int) -> bool {
    k == 5
}

/// Each percentile of a series is the sorted series' value at the place of that
/// percentile, the least and the greatest are the ends of it, and they bound
/// all values. Percentiles whose places ascend ascend too. All else is kept as
/// it was handed in, and the frames are counted.
pub proof fn lemma_statistics(values: Seq<Num>, avg: Num, exec_s: Num, m: Moments)
    requires
        0 < values.len() <= usize::MAX,
        m.p1_at < values.len() && m.p5_at < values.len() && m.p10_at < values.len() && m.p25_at
            < values.len(),
    ensures
        stats_of(values, avg, exec_s, m) is Some,
        ({
            let s = stats_of(values, avg, exec_s, m)->0;
            let sorted = ranked(values);
            &&& s.p1 == sorted[m.p1_at as int]
            &&& s.p5 == sorted[m.p5_at as int]
            &&& s.p10 == sorted[m.p10_at as int]
            &&& s.p25 == sorted[m.p25_at as int]
            &&& values.contains(s.min) && values.contains(s.max)
            &&& values.contains(s.p1) && values.contains(s.p5) && values.contains(s.p10)
                && values.contains(s.p25)
            &&& forall|i: int|
                0 <= i < values.len() ==> s.min.total() <= (#[trigger] values[i]).total()
                    <= s.max.total()
            &&& m.p1_at <= m.p5_at ==> s.p1.total() <= s.p5.total()
            &&& m.p5_at <= m.p10_at ==> s.p5.total() <= s.p10.total()
            &&& m.p10_at <= m.p25_at ==> s.p10.total() <= s.p25.total()
            &&& s.min.total() <= s.p1.total() && s.p25.total() <= s.max.total()
            &&& s.avg == avg && s.mean == m.mean && s.harm == m.harm && s.stddev == m.stddev
            &&& s.exec_s == exec_s && s.frames == values.len()
        }),
{
    lemma_ranked(values);
    let sorted = ranked(values);
    let s = stats_of(values, avg, exec_s, m)->0;
    assert(sorted.contains(sorted[0]) && sorted.contains(sorted[values.len() - 1]));
    assert(sorted.contains(sorted[m.p1_at as int]) && sorted.contains(sorted[m.p5_at as int])
        && sorted.contains(sorted[m.p10_at as int]) && sorted.contains(sorted[m.p25_at as int]));
    assert(values.contains(s.min) && values.contains(s.max) && values.contains(s.p1)
        && values.contains(s.p5) && values.contains(s.p10) && values.contains(s.p25));
    assert forall|i: int| 0 <= i < values.len() implies s.min.total() <= (
    #[trigger] values[i]).total() <= s.max.total() by {
        assert(values.contains(values[i]));
        assert(sorted.contains(values[i]));
        let j = choose|j: int| 0 <= j < sorted.len() && sorted[j] == values[i];
        assert(sorted[0].total() <= sorted[j].total() <= sorted[values.len() - 1].total());
    }
}

/// A series without values has no statistics.
pub proof fn lemma_no_values_no_statistics(avg: Num, exec_s: Num, m: Moments)
    ensures
        stats_of(Seq::empty(), avg, exec_s, m) is None,
{
}

/// Every statistic is found at its own place: what a cell, a tooltip or a sort
/// shows under a name is the field of that name.
pub proof fn lemma_statistics_have_their_places(s: DoneStats)
    ensures
        s.values().len() == 10,
        s.values()[CellStat::Avg.place()] == s.avg,
        s.values()[CellStat::Mean.place()] == s.mean,
        s.values()[CellStat::Harm.place()] == s.harm,
        s.values()[CellStat::Min.place()] == s.min,
        s.values()[CellStat::Max.place()] == s.max,
        s.values()[CellStat::StdDev.place()] == s.stddev,
        s.values()[CellStat::P1.place()] == s.p1,
        s.values()[CellStat::P5.place()] == s.p5,
        s.values()[CellStat::P10.place()] == s.p10,
        s.values()[CellStat::P25.place()] == s.p25,
{
}

/// Statistics are offered, listed in tooltips and kept in one order, under the
/// same names.
pub proof fn lemma_statistics_have_one_order(stat: CellStat)
    ensures
        all_stats()[stat.place()] == stat,
        label_of(stat.place()) == stat.label_text() + ":"@,
        0 <= stat.place() < 10 && all_stats().len() == 10,
{
    reveal_strlit("Avg");
    reveal_strlit("Mean");
    reveal_strlit("Mean (harm)");
    reveal_strlit("Min");
    reveal_strlit("Max");
    reveal_strlit("StdDev (pop)");
    reveal_strlit("Percentile 1");
    reveal_strlit("Percentile 5");
    reveal_strlit("Percentile 10");
    reveal_strlit("Percentile 25");
    reveal_strlit("Avg:");
    reveal_strlit("Mean:");
    reveal_strlit("Mean (harm):");
    reveal_strlit("Min:");
    reveal_strlit("Max:");
    reveal_strlit("StdDev (pop):");
    reveal_strlit("Percentile 1:");
    reveal_strlit("Percentile 5:");
    reveal_strlit("Percentile 10:");
    reveal_strlit("Percentile 25:");
    reveal_strlit(":");
    assert(label_of(stat.place()) =~= stat.label_text() + ":"@);
}

/// The lines of a tooltip name each printed statistic, the average first; the
/// one of a statistic is its label and its number.
pub proof fn lemma_tooltip_names_statistics(
    printed: Seq<Seq<char>>,
    exec: Seq<char>,
    frames: nat,
    stat: CellStat,
)
    requires
        printed.len() == 10,
    ensures
        stat_lines(printed, exec, frames).contains(
            stat.label_text() + ":"@ + " "@ + printed[stat.place()],
        ),
        stat_lines(printed, exec, frames)[0] == CellStat::Avg.label_text() + ":"@ + " "@ + printed[0],
        stat_lines(printed, exec, frames).contains("Exec time: "@ + exec),
        stat_lines(printed, exec, frames).contains("Frames count: "@ + dec(frames)),
{
    let ls = stat_lines(printed, exec, frames);
    lemma_statistics_have_one_order(stat);
    lemma_statistics_have_one_order(CellStat::Avg);
    let at: int = match stat {
        CellStat::Avg => 0,
        CellStat::Mean => 5,
        CellStat::Harm => 6,
        CellStat::Min => 7,
        CellStat::Max => 8,
        CellStat::StdDev => 9,
        CellStat::P1 => 11,
        CellStat::P5 => 12,
        CellStat::P10 => 13,
        CellStat::P25 => 14,
    };
    assert(ls[at] == stat_line(stat.place(), printed));
    assert(ls[1] == "Exec time: "@ + exec);
    assert(ls[2] == "Frames count: "@ + dec(frames));
}

/// The greatest of a column is its best and the least its worst, where greater
/// is better; where less is better, the other way round. A value that is
/// neither has no rank, and where all are equal all tie.
pub proof fn lemma_ends_of_a_column_rank(v: Num, lo: Num, hi: Num)
    requires
        !v.nan() && !lo.nan() && !hi.nan(),
        !v.less(lo) && !hi.less(v),
    ensures
        lo.less(hi) && !v.less(hi) ==> rank_of(v, lo, hi) is Best && rank_low_of(v, lo, hi) is Worst,
        lo.less(hi) && !lo.less(v) ==> rank_of(v, lo, hi) is Worst && rank_low_of(v, lo, hi) is Best,
        lo.less(v) && v.less(hi) ==> rank_of(v, lo, hi) is Plain && rank_low_of(v, lo, hi) is Plain,
        !lo.less(hi) ==> rank_of(v, lo, hi) is Tie && rank_low_of(v, lo, hi) is Tie,
{
}

/// A cell shows nothing of a result before there is one: idle, running and
/// failed cells tell so, the running one its frame and the failed one why.
pub proof fn lemma_cells_tell_their_state(c: CellView, shown: Seq<char>, other: Seq<char>)
    ensures
        c is Done ==> short_text(c, shown) == shown,
        !(c is Done) ==> short_text(c, shown) == short_text(c, other),
        c is Error ==> short_text(c, shown) == c->msg,
        c is Running ==> short_text(c, shown) == "Frame: "@ + dec(c->frame as nat),
{
}

} // verus!
