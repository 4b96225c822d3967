//! The start of a run: which metrics of which files are computed, which sit it
//! out, and what is said about it.
use vstd::prelude::*;
use vstd::string::StringExecFns;
use crate::app::config::{vmaf_settings, Config, ConfigView, MetricToggles};
use crate::app::model::{
    lemma_ranks_leave_row_ok, lemma_sound_by_rows, queue_ok, same_but_ranks, QueueModel, QueueView,
};
use crate::app::probing::{has_kind, Binaries, BinariesView};
use crate::app::queue::{
    done_is_stale, no_cache, refresh_ranks, reranked, row_ok, row_views, stale, CacheView, QueueRow,
    RowView,
};
use crate::app::toast::{cut_80, cut_to_80, error, info, opt_toast, Toast, ToastKind, ToastView};
use crate::metrics::cell::{finished, CellView, MetricCell, Stamp, StampView};
use crate::metrics::ffmpeg::{all_kinds, MetricKind};
use crate::num::{same_num, Num};
use crate::outside::opt_text;
use crate::probe::{MediaInfo, MediaView};
use crate::text::{blank, dec, dec_usize, has, is_blank, join, joined, put, same_all, texts};

verus! {

// ---- What is to be computed ----

/// Whether a metric is ticked and can be computed at all. Of ffmpeg's only
/// those that it has a filter for; a missing FFVship is told per file.
pub open spec fn wanted(m: MetricToggles, b: BinariesView, kind: MetricKind) -> bool {
    m.ticked(kind) && (kind.by_ffvship() || b.ffmpeg.supported_metrics.contains(kind))
}

pub open spec fn wanted_to(m: MetricToggles, b: BinariesView, n: int) -> Seq<MetricKind>
    decreases n,
{
    if n <= 0 {
        Seq::empty()
    } else {
        let head = wanted_to(m, b, n - 1);
        if wanted(m, b, all_kinds()[n - 1]) {
            head.push(all_kinds()[n - 1])
        } else {
            head
        }
    }
}

/// The metrics to compute, in their order.
pub open spec fn wanted_kinds(m: MetricToggles, b: BinariesView) -> Seq<MetricKind> {
    wanted_to(m, b, 7)
}

pub fn wanted_kinds_of(m: &MetricToggles, b: &Binaries) -> (r: Vec<MetricKind>)
    ensures
        r@ == wanted_kinds(*m, b@),
{
    let all = MetricKind::all();
    let mut r: Vec<MetricKind> = Vec::new();
    let mut i: usize = 0;
    while i < 7
        invariant
            i <= 7,
            all@ == all_kinds(),
            r@ == wanted_to(*m, b@, i as int),
        decreases 7 - i,
    {
        let k = all[i];
        if m.is_ticked(k) && (k.is_ffvship() || has_kind(&b.ffmpeg.supported_metrics, k)) {
            r.push(k);
        }
        i += 1;
    }
    r
}

proof fn lemma_wanted_to(m: MetricToggles, b: BinariesView, n: int, kind: MetricKind)
    requires
        0 <= n <= 7,
    ensures
        wanted_to(m, b, n).contains(kind) <==> wanted(m, b, kind) && kind.place() < n,
    decreases n,
{
    if n > 0 {
        let last = all_kinds()[n - 1];
        let head = wanted_to(m, b, n - 1);
        lemma_wanted_to(m, b, n - 1, kind);
        assert(last.place() == n - 1);
        let w = wanted_to(m, b, n);
        if head.contains(kind) {
            let j = choose|j: int| 0 <= j < head.len() && head[j] == kind;
            assert(w[j] == kind);
        }
        if w.contains(kind) && !head.contains(kind) {
            let j = choose|j: int| 0 <= j < w.len() && w[j] == kind;
            if j < head.len() {
                assert(head[j] == kind);
            }
            assert(kind == last);
        }
        if wanted(m, b, kind) && kind.place() == n - 1 {
            lemma_kind_at(kind);
            assert(w[head.len() as int] == kind);
        }
    }
}

proof fn lemma_kind_at(kind: MetricKind)
    ensures
        all_kinds()[kind.place()] == kind,
{
}

/// A metric is computed exactly where it is ticked and can be.
pub proof fn lemma_wanted_kinds(m: MetricToggles, b: BinariesView, kind: MetricKind)
    ensures
        wanted_kinds(m, b).contains(kind) <==> wanted(m, b, kind),
{
    lemma_wanted_to(m, b, 7, kind);
}

/// The settings that a run is computed under.
pub open spec fn run_stamp(c: ConfigView, skip: Option<Num>, clip: Option<Num>, threads: u32) -> StampView {
    StampView {
        skip,
        clip_dur: clip,
        vmaf_cfg: Some(vmaf_settings(c.vmaf, threads)),
        scaler: c.view.scale_method,
        fps_mode: c.view.fps_mode,
        ref_pixfmt: c.reference.pixfmt,
    }
}

pub fn run_stamp_of(c: &Config, skip: Option<Num>, clip: Option<Num>, threads: u32) -> (r: Stamp)
    ensures
        r@ == run_stamp(c@, skip, clip, threads),
{
    Stamp {
        skip,
        clip_dur: clip,
        vmaf_cfg: Some(c.vmaf.current_vmaf_cfg(threads)),
        scaler: c.view.scale_method,
        fps_mode: c.view.fps_mode.clone(),
        ref_pixfmt: c.reference.pixfmt.clone(),
    }
}

/// The settings as a finished cell of one metric keeps them.
pub open spec fn stamp_for(kind: MetricKind, cur: StampView) -> StampView {
    StampView {
        vmaf_cfg: if kind is Vmaf {
            cur.vmaf_cfg
        } else {
            None
        },
        ..cur
    }
}

pub fn stamp_for_kind(kind: MetricKind, cur: &Stamp) -> (r: Stamp)
    ensures
        r@ == stamp_for(kind, cur@),
{
    let mut r = cur.copy();
    if !matches!(kind, MetricKind::Vmaf) {
        r.vmaf_cfg = None;
    }
    r
}

/// A result is not stale under the settings that it was computed under.
pub proof fn lemma_new_result_is_current(
    kind: MetricKind,
    cur: StampView,
    values: Seq<Num>,
    avg: Num,
    exec_s: Num,
)
    requires
        same_num(cur.skip, cur.skip),
        same_num(cur.clip_dur, cur.clip_dur),
    ensures
        !stale(
            kind,
            CellView::Done { values, avg, exec_s, stamp: stamp_for(kind, cur) },
            cur,
        ),
{
}

/// Whether a file's metric is to be computed: not where it has a result that
/// is not stale.
pub open spec fn due(r: RowView, kind: MetricKind, cur: StampView) -> bool {
    r.included && !(r.cell(kind) is Done && !stale(kind, r.cell(kind), cur))
}

/// Whether a file sits the run out, having the result already.
pub open spec fn sits_out(r: RowView, kind: MetricKind, cur: StampView) -> bool {
    r.included && r.cell(kind) is Done && !stale(kind, r.cell(kind), cur)
}

fn is_due(r: &QueueRow, kind: MetricKind, cur: &Stamp) -> (b: bool)
    ensures
        b == due(r@, kind, cur@),
{
    r.included && !(r.cell(kind).is_done() && !done_is_stale(kind, r.cell(kind), cur))
}

/// How many files a metric is to be computed for.
pub open spec fn due_count(rows: Seq<RowView>, kind: MetricKind, cur: StampView) -> nat
    decreases rows.len(),
{
    if rows.len() == 0 {
        0
    } else {
        due_count(rows.drop_last(), kind, cur) + if due(rows.last(), kind, cur) {
            1nat
        } else {
            0
        }
    }
}

/// The names of the files that sit the run out.
pub open spec fn out_names(rows: Seq<RowView>, kind: MetricKind, cur: StampView) -> Seq<Seq<char>>
    decreases rows.len(),
{
    if rows.len() == 0 {
        Seq::empty()
    } else {
        let head = out_names(rows.drop_last(), kind, cur);
        if sits_out(rows.last(), kind, cur) {
            head.push(rows.last().display)
        } else {
            head
        }
    }
}

/// The share of one metric in a run: for how many files it is to be computed,
/// and which sit it out.
#[derive(Debug)]
pub struct Work {
    pub kind: MetricKind,
    pub due: usize,
    pub skipped: Vec<String>,
}

pub struct WorkView {
    pub kind: MetricKind,
    pub due: nat,
    pub skipped: Seq<Seq<char>>,
}

impl View for Work {
    type V = WorkView;

    open spec fn view(&self) -> WorkView {
        WorkView { kind: self.kind, due: self.due as nat, skipped: texts(self.skipped@) }
    }
}

pub open spec fn work_views(v: Seq<Work>) -> Seq<WorkView> {
    v.map_values(|w: Work| w@)
}

pub open spec fn work_of(rows: Seq<RowView>, kind: MetricKind, cur: StampView) -> WorkView {
    WorkView {
        kind,
        due: due_count(rows, kind, cur),
        skipped: out_names(rows, kind, cur),
    }
}

pub open spec fn works_of(rows: Seq<RowView>, kinds: Seq<MetricKind>, cur: StampView) -> Seq<WorkView> {
    kinds.map_values(|k: MetricKind| work_of(rows, k, cur))
}

fn work_for(rows: &Vec<QueueRow>, kind: MetricKind, cur: &Stamp) -> (r: Work)
    ensures
        r@ == work_of(row_views(rows@), kind, cur@),
{
    let ghost all = row_views(rows@);
    let mut count: usize = 0;
    let mut skipped: Vec<String> = Vec::new();
    let mut i: usize = 0;
    assert(all.take(0) =~= Seq::<RowView>::empty());
    assert(texts(skipped@) =~= Seq::<Seq<char>>::empty());
    while i < rows.len()
        invariant
            i <= rows@.len(),
            all == row_views(rows@),
            count <= i,
            count == due_count(all.take(i as int), kind, cur@),
            texts(skipped@) == out_names(all.take(i as int), kind, cur@),
        decreases rows.len() - i,
    {
        assert(all.take(i + 1).drop_last() =~= all.take(i as int));
        assert(all.take(i + 1).last() == rows@[i as int]@);
        if rows[i].included {
            if is_due(&rows[i], kind, cur) {
                count += 1;
            } else {
                put(&mut skipped, rows[i].display.as_str());
            }
        }
        i += 1;
    }
    assert(all.take(i as int) =~= all);
    Work { kind, due: count, skipped }
}

fn works_for(rows: &Vec<QueueRow>, kinds: &Vec<MetricKind>, cur: &Stamp) -> (r: Vec<Work>)
    ensures
        work_views(r@) == works_of(row_views(rows@), kinds@, cur@),
{
    let ghost want = works_of(row_views(rows@), kinds@, cur@);
    let mut r: Vec<Work> = Vec::new();
    let mut i: usize = 0;
    while i < kinds.len()
        invariant
            i <= kinds@.len(),
            want == works_of(row_views(rows@), kinds@, cur@),
            work_views(r@) =~= want.take(i as int),
        decreases kinds.len() - i,
    {
        let ghost before = r@;
        r.push(work_for(rows, kinds[i], cur));
        assert(work_views(r@) =~= work_views(before).push(want[i as int]));
        i += 1;
        assert(work_views(r@) =~= want.take(i as int));
    }
    assert(want.take(i as int) =~= want);
    r
}

/// Whether nothing is to be computed.
pub open spec fn nothing_due(works: Seq<WorkView>) -> bool {
    forall|i: int| 0 <= i < works.len() ==> (#[trigger] works[i]).due == 0
}

fn is_nothing_due(works: &Vec<Work>) -> (r: bool)
    ensures
        r == nothing_due(work_views(works@)),
{
    let mut i: usize = 0;
    while i < works.len()
        invariant
            i <= works@.len(),
            forall|j: int| 0 <= j < i ==> (#[trigger] works@[j]).due == 0,
        decreases works.len() - i,
    {
        if works[i].due > 0 {
            assert(work_views(works@)[i as int].due != 0);
            return false;
        }
        i += 1;
    }
    assert forall|j: int| 0 <= j < work_views(works@).len() implies (
    #[trigger] work_views(works@)[j]).due == 0 by {
        assert(work_views(works@)[j] == works@[j]@);
    }
    true
}

// ---- What is said of those that sit out ----

/// Metrics that the same files sit out.
#[derive(Debug)]
pub struct SkipGroup {
    pub names: Vec<String>,
    pub skipped: Vec<String>,
}

#[verifier::ext_equal]
pub struct GroupView {
    pub names: Seq<Seq<char>>,
    pub skipped: Seq<Seq<char>>,
}

impl View for SkipGroup {
    type V = GroupView;

    open spec fn view(&self) -> GroupView {
        GroupView { names: texts(self.names@), skipped: texts(self.skipped@) }
    }
}

pub open spec fn group_views(v: Seq<SkipGroup>) -> Seq<GroupView> {
    v.map_values(|g: SkipGroup| g@)
}

/// The first group from `from` on of the same files.
pub open spec fn group_at(g: Seq<GroupView>, skipped: Seq<Seq<char>>, from: int) -> Option<int>
    decreases g.len() - from,
{
    if from < 0 || from >= g.len() {
        None
    } else if g[from].skipped == skipped {
        Some(from)
    } else {
        group_at(g, skipped, from + 1)
    }
}

/// The groups with one more metric.
pub open spec fn grouped_in(g: Seq<GroupView>, w: WorkView) -> Seq<GroupView> {
    if w.skipped.len() == 0 {
        g
    } else {
        match group_at(g, w.skipped, 0) {
            Some(i) => g.update(
                i,
                GroupView { names: g[i].names.push(w.kind.name_text()), skipped: g[i].skipped },
            ),
            None => g.push(GroupView { names: seq![w.kind.name_text()], skipped: w.skipped }),
        }
    }
}

/// The metrics of a run by the files that sit them out; one that none sits out
/// is in no group.
pub open spec fn grouped(works: Seq<WorkView>) -> Seq<GroupView>
    decreases works.len(),
{
    if works.len() == 0 {
        Seq::empty()
    } else {
        grouped_in(grouped(works.drop_last()), works.last())
    }
}

/// The metrics of a run by the files that sit them out.
pub fn skip_groups(work: &Vec<Work>) -> (r: Vec<SkipGroup>)
    ensures
        group_views(r@) == grouped(work_views(work@)),
{
    let ghost all = work_views(work@);
    let mut r: Vec<SkipGroup> = Vec::new();
    let mut i: usize = 0;
    assert(all.take(0) =~= Seq::<WorkView>::empty());
    assert(group_views(r@) =~= Seq::<GroupView>::empty());
    while i < work.len()
        invariant
            i <= work@.len(),
            all == work_views(work@),
            group_views(r@) == grouped(all.take(i as int)),
        decreases work.len() - i,
    {
        let ghost before = group_views(r@);
        assert(all.take(i + 1).drop_last() =~= all.take(i as int));
        assert(all.take(i + 1).last() == work@[i as int]@);
        assert(work@[i as int]@.skipped.len() == work@[i as int].skipped@.len());
        if work[i].skipped.len() > 0 {
            match find_group(&r, &work[i].skipped) {
                Some(at) => {
                    let ghost g0 = r@[at as int]@;
                    assert(before[at as int] == g0);
                    let g = &mut r[at];
                    put(&mut g.names, work[i].kind.name());
                    assert(group_views(r@) =~= before.update(
                        at as int,
                        GroupView {
                            names: g0.names.push(work@[i as int].kind.name_text()),
                            skipped: g0.skipped,
                        },
                    ));
                },
                None => {
                    let mut names: Vec<String> = Vec::new();
                    assert(texts(names@) =~= Seq::<Seq<char>>::empty());
                    put(&mut names, work[i].kind.name());
                    assert(texts(names@) =~= seq![work@[i as int].kind.name_text()]);
                    r.push(SkipGroup { names, skipped: crate::text::copy_all(&work[i].skipped) });
                    assert(group_views(r@) =~= before.push(r@.last()@));
                },
            }
        }
        i += 1;
    }
    assert(all.take(i as int) =~= all);
    r
}

fn find_group(g: &Vec<SkipGroup>, skipped: &Vec<String>) -> (r: Option<usize>)
    ensures
        match r {
            Some(i) => i < g@.len() && group_at(group_views(g@), texts(skipped@), 0) == Some(
                i as int,
            ),
            None => group_at(group_views(g@), texts(skipped@), 0) is None,
        },
{
    let mut i: usize = 0;
    while i < g.len()
        invariant
            i <= g@.len(),
            group_at(group_views(g@), texts(skipped@), 0) == group_at(
                group_views(g@),
                texts(skipped@),
                i as int,
            ),
        decreases g.len() - i,
    {
        assert(group_views(g@)[i as int] == g@[i as int]@);
        if same_all(&g[i].skipped, skipped) {
            return Some(i);
        }
        i += 1;
    }
    None
}

/// `Skipped <how many> with existing <metrics>`.
pub open spec fn skip_line(g: GroupView) -> Seq<char> {
    "Skipped "@ + dec(g.skipped.len()) + " with existing "@ + join(g.names, ", "@)
}

/// The same with the names of the files.
pub open spec fn skip_line_named(g: GroupView) -> Seq<char> {
    skip_line(g) + ": "@ + cut_80(join(g.skipped, ", "@))
}

fn skip_line_of(g: &SkipGroup) -> (r: String)
    ensures
        r@ == skip_line(g@),
{
    let mut s = "Skipped ".to_owned();
    assert(texts(g.skipped@).len() == g.skipped@.len());
    s.append(dec_usize(g.skipped.len()).as_str());
    s.append(" with existing ");
    s.append(joined(&g.names, ", ").as_str());
    s
}

fn skip_line_named_of(g: &SkipGroup) -> (r: String)
    ensures
        r@ == skip_line_named(g@),
{
    let mut s = skip_line_of(g);
    s.append(": ");
    s.append(cut_to_80(joined(&g.skipped, ", ").as_str()).as_str());
    s
}

pub open spec fn skip_lines(g: Seq<GroupView>, with_names: bool) -> Seq<Seq<char>> {
    g.map_values(
        |v: GroupView|
            if with_names {
                skip_line_named(v)
            } else {
                skip_line(v)
            },
    )
}

fn skip_lines_of(g: &Vec<SkipGroup>, with_names: bool) -> (r: Vec<String>)
    ensures
        texts(r@) == skip_lines(group_views(g@), with_names),
        r@.len() == g@.len(),
{
    let ghost want = skip_lines(group_views(g@), with_names);
    let mut r: Vec<String> = Vec::new();
    let mut i: usize = 0;
    assert(texts(r@) =~= want.take(0));
    while i < g.len()
        invariant
            i <= g@.len(),
            r@.len() == i,
            want == skip_lines(group_views(g@), with_names),
            texts(r@) == want.take(i as int),
        decreases g.len() - i,
    {
        let line = if with_names {
            skip_line_named_of(&g[i])
        } else {
            skip_line_of(&g[i])
        };
        put(&mut r, line.as_str());
        i += 1;
        assert(texts(r@) =~= want.take(i as int));
    }
    assert(want.take(i as int) =~= want);
    r
}

// ---- Programs that are missing ----

/// The program that computes a metric, where it can be used.
pub open spec fn exe_for(b: BinariesView, kind: MetricKind) -> Option<Seq<char>> {
    if kind.by_ffvship() {
        if b.ffvship.usable {
            b.ffvship.path
        } else {
            None
        }
    } else {
        b.ffmpeg.path
    }
}

/// What is said where it cannot.
pub open spec fn missing_text(kind: MetricKind) -> Seq<char> {
    if kind.by_ffvship() {
        "FFVship not found"@
    } else {
        "ffmpeg not found"@
    }
}

fn exe_of(b: &Binaries, kind: MetricKind) -> (r: Option<String>)
    ensures
        opt_text(r) == exe_for(b@, kind),
{
    if kind.is_ffvship() {
        if b.ffvship.usable {
            crate::probe::copy_text(&b.ffvship.path)
        } else {
            None
        }
    } else {
        crate::probe::copy_text(&b.ffmpeg.path)
    }
}

fn missing_label(kind: MetricKind) -> (r: &'static str)
    ensures
        r@ == missing_text(kind),
{
    if kind.is_ffvship() {
        "FFVship not found"
    } else {
        "ffmpeg not found"
    }
}

/// What is said of missing programs, each once.
pub open spec fn missing_labels(works: Seq<WorkView>, b: BinariesView) -> Seq<Seq<char>>
    decreases works.len(),
{
    if works.len() == 0 {
        Seq::empty()
    } else {
        let head = missing_labels(works.drop_last(), b);
        let w = works.last();
        if w.due > 0 && exe_for(b, w.kind) is None && !head.contains(missing_text(w.kind)) {
            head.push(missing_text(w.kind))
        } else {
            head
        }
    }
}

fn missing_labels_of(works: &Vec<Work>, b: &Binaries) -> (r: Vec<String>)
    ensures
        texts(r@) == missing_labels(work_views(works@), b@),
{
    let ghost all = work_views(works@);
    let mut r: Vec<String> = Vec::new();
    let mut i: usize = 0;
    assert(all.take(0) =~= Seq::<WorkView>::empty());
    assert(texts(r@) =~= Seq::<Seq<char>>::empty());
    while i < works.len()
        invariant
            i <= works@.len(),
            all == work_views(works@),
            texts(r@) == missing_labels(all.take(i as int), b@),
        decreases works.len() - i,
    {
        assert(all.take(i + 1).drop_last() =~= all.take(i as int));
        assert(all.take(i + 1).last() == works@[i as int]@);
        if works[i].due > 0 && exe_of(b, works[i].kind).is_none() {
            let label = missing_label(works[i].kind);
            let said = has(&r, label);
            if !said {
                put(&mut r, label);
            }
        }
        i += 1;
    }
    assert(all.take(i as int) =~= all);
    r
}

// ---- What a start does to the rows ----

/// The rows with the ranks of some metrics renewed, one after another.
pub open spec fn reranked_by(rows: Seq<RowView>, kinds: Seq<MetricKind>) -> Seq<RowView>
    decreases kinds.len(),
{
    if kinds.len() == 0 {
        rows
    } else {
        reranked(reranked_by(rows, kinds.drop_last()), kinds.last())
    }
}

fn rerank_kinds(rows: &mut Vec<QueueRow>, kinds: &Vec<MetricKind>)
    ensures
        row_views(final(rows)@) == reranked_by(row_views(old(rows)@), kinds@),
{
    let ghost r0 = row_views(rows@);
    let mut i: usize = 0;
    assert(kinds@.take(0) =~= Seq::<MetricKind>::empty());
    while i < kinds.len()
        invariant
            i <= kinds@.len(),
            row_views(rows@) == reranked_by(r0, kinds@.take(i as int)),
        decreases kinds.len() - i,
    {
        assert(kinds@.take(i + 1).drop_last() =~= kinds@.take(i as int));
        refresh_ranks(rows, kinds[i]);
        i += 1;
    }
    assert(kinds@.take(i as int) =~= kinds@);
}

/// Renewing the ranks of some metrics changes nothing but ranks.
pub proof fn lemma_reranked_by_keeps(rows: Seq<RowView>, kinds: Seq<MetricKind>)
    requires
        forall|i: int| 0 <= i < rows.len() ==> (#[trigger] rows[i]).caches.len() == 7,
    ensures
        reranked_by(rows, kinds).len() == rows.len(),
        forall|i: int|
            0 <= i < rows.len() ==> same_but_ranks(
                #[trigger] reranked_by(rows, kinds)[i],
                rows[i],
            ),
    decreases kinds.len(),
{
    if kinds.len() > 0 {
        let head = reranked_by(rows, kinds.drop_last());
        lemma_reranked_by_keeps(rows, kinds.drop_last());
        let all = reranked_by(rows, kinds);
        assert forall|i: int| 0 <= i < rows.len() implies same_but_ranks(
            #[trigger] all[i],
            rows[i],
        ) by {
            assert(same_but_ranks(head[i], rows[i]));
        }
    }
}

/// A row that cannot be computed at all.
pub open spec fn failed_row(r: RowView, kinds: Seq<MetricKind>, msg: Seq<char>) -> RowView {
    RowView {
        cells: Seq::new(
            7,
            |p: int|
                if kinds.contains(all_kinds()[p]) {
                    CellView::Error { msg }
                } else {
                    r.cells[p]
                },
        ),
        caches: Seq::new(
            7,
            |p: int|
                if kinds.contains(all_kinds()[p]) {
                    no_cache()
                } else {
                    r.caches[p]
                },
        ),
        ..r
    }
}

/// The rows where none of the included ones can be computed.
pub open spec fn failed_rows(rows: Seq<RowView>, kinds: Seq<MetricKind>, msg: Seq<char>) -> Seq<RowView> {
    rows.map_values(
        |r: RowView|
            if r.included {
                failed_row(r, kinds, msg)
            } else {
                r
            },
    )
}

fn fail_row(row: &mut QueueRow, kinds: &Vec<MetricKind>, msg: &str)
    ensures
        final(row)@ == failed_row(old(row)@, kinds@, msg@),
{
    let all = MetricKind::all();
    let ghost r0 = row@;
    let ghost want = failed_row(r0, kinds@, msg@);
    let mut p: usize = 0;
    while p < 7
        invariant
            p <= 7,
            all@ == all_kinds(),
            all@.len() == 7,
            forall|i: int| 0 <= i < 7 ==> (#[trigger] all@[i]).place() == i,
            want == failed_row(r0, kinds@, msg@),
            r0.cells.len() == 7,
            r0.caches.len() == 7,
            row@ == (RowView { cells: row@.cells, caches: row@.caches, ..r0 }),
            row@.cells.len() == 7,
            row@.caches.len() == 7,
            forall|j: int| 0 <= j < p ==> #[trigger] row@.cells[j] == want.cells[j],
            forall|j: int| 0 <= j < p ==> #[trigger] row@.caches[j] == want.caches[j],
            forall|j: int| p <= j < 7 ==> #[trigger] row@.cells[j] == r0.cells[j],
            forall|j: int| p <= j < 7 ==> #[trigger] row@.caches[j] == r0.caches[j],
        decreases 7 - p,
    {
        let k = all[p];
        if has_kind(kinds, k) {
            *row.cell_mut(k) = MetricCell::Error { msg: msg.to_owned() };
            row.clear_cached(k);
        }
        p += 1;
    }
    assert(row@ =~= want);
}

fn fail_rows(rows: &mut Vec<QueueRow>, kinds: &Vec<MetricKind>, msg: &str)
    ensures
        row_views(final(rows)@) == failed_rows(row_views(old(rows)@), kinds@, msg@),
{
    let ghost r0 = row_views(rows@);
    let ghost want = failed_rows(r0, kinds@, msg@);
    let n: usize = rows.len();
    let mut i: usize = 0;
    while i < n
        invariant
            i <= n,
            n == rows@.len(),
            n == r0.len(),
            want == failed_rows(r0, kinds@, msg@),
            forall|j: int| 0 <= j < i ==> (#[trigger] rows@[j])@ == want[j],
            forall|j: int| i <= j < n ==> (#[trigger] rows@[j])@ == r0[j],
        decreases n - i,
    {
        assert(rows@[i as int]@ == r0[i as int]);
        if rows[i].included {
            let row = &mut rows[i];
            fail_row(row, kinds, msg);
        }
        i += 1;
    }
    assert(row_views(rows@) =~= want);
}

/// What becomes of one cell.
#[derive(Debug, Clone, Copy, PartialEq, Eq, Structural)]
pub enum Mark {
    Keep,
    /// The program is missing.
    Missing,
    Run,
}

/// What becomes of one cell: those that are due fail where their program is
/// missing, and run where the file is known.
pub open spec fn mark_of(
    r: RowView,
    kinds: Seq<MetricKind>,
    kind: MetricKind,
    cur: StampView,
    b: BinariesView,
    go: bool,
) -> Mark {
    if !kinds.contains(kind) || !due(r, kind, cur) {
        Mark::Keep
    } else if exe_for(b, kind) is None {
        Mark::Missing
    } else if go && r.info is Some {
        Mark::Run
    } else {
        Mark::Keep
    }
}

pub open spec fn marked_cell(m: Mark, kind: MetricKind, c: CellView) -> CellView {
    match m {
        Mark::Keep => c,
        Mark::Missing => CellView::Error { msg: missing_text(kind) },
        Mark::Run => CellView::Running { frame: 0, values: Seq::empty() },
    }
}

pub open spec fn marked_cache(m: Mark, c: CacheView) -> CacheView {
    match m {
        Mark::Keep => c,
        Mark::Missing => no_cache(),
        Mark::Run => CacheView { stats: None, text: Seq::empty(), finished: None, ..c },
    }
}

pub open spec fn marked_row(
    r: RowView,
    kinds: Seq<MetricKind>,
    cur: StampView,
    b: BinariesView,
    go: bool,
) -> RowView {
    RowView {
        cells: Seq::new(
            7,
            |p: int|
                marked_cell(
                    mark_of(r, kinds, all_kinds()[p], cur, b, go),
                    all_kinds()[p],
                    r.cells[p],
                ),
        ),
        caches: Seq::new(
            7,
            |p: int| marked_cache(mark_of(r, kinds, all_kinds()[p], cur, b, go), r.caches[p]),
        ),
        ..r
    }
}

pub open spec fn marked_rows(
    rows: Seq<RowView>,
    kinds: Seq<MetricKind>,
    cur: StampView,
    b: BinariesView,
    go: bool,
) -> Seq<RowView> {
    rows.map_values(|r: RowView| marked_row(r, kinds, cur, b, go))
}

fn mark_for(
    r: &QueueRow,
    kinds: &Vec<MetricKind>,
    kind: MetricKind,
    cur: &Stamp,
    b: &Binaries,
    go: bool,
) -> (m: Mark)
    ensures
        m == mark_of(r@, kinds@, kind, cur@, b@, go),
{
    if !has_kind(kinds, kind) || !is_due(r, kind, cur) {
        Mark::Keep
    } else if exe_of(b, kind).is_none() {
        Mark::Missing
    } else if go && r.info.is_some() {
        Mark::Run
    } else {
        Mark::Keep
    }
}

fn mark_row(row: &mut QueueRow, kinds: &Vec<MetricKind>, cur: &Stamp, b: &Binaries, go: bool)
    ensures
        final(row)@ == marked_row(old(row)@, kinds@, cur@, b@, go),
{
    let all = MetricKind::all();
    let ghost r0 = row@;
    let ghost want = marked_row(r0, kinds@, cur@, b@, go);
    let mut p: usize = 0;
    while p < 7
        invariant
            p <= 7,
            all@ == all_kinds(),
            all@.len() == 7,
            forall|i: int| 0 <= i < 7 ==> (#[trigger] all@[i]).place() == i,
            want == marked_row(r0, kinds@, cur@, b@, go),
            r0.cells.len() == 7,
            r0.caches.len() == 7,
            row@ == (RowView { cells: row@.cells, caches: row@.caches, ..r0 }),
            row@.cells.len() == 7,
            row@.caches.len() == 7,
            forall|j: int| 0 <= j < p ==> #[trigger] row@.cells[j] == want.cells[j],
            forall|j: int| 0 <= j < p ==> #[trigger] row@.caches[j] == want.caches[j],
            forall|j: int| p <= j < 7 ==> #[trigger] row@.cells[j] == r0.cells[j],
            forall|j: int| p <= j < 7 ==> #[trigger] row@.caches[j] == r0.caches[j],
        decreases 7 - p,
    {
        let k = all[p];
        assert(row@.cell(k) == r0.cell(k));
        assert(row@.cache(k) == r0.cache(k));
        match mark_for(row, kinds, k, cur, b, go) {
            Mark::Keep => {},
            Mark::Missing => {
                *row.cell_mut(k) = MetricCell::Error { msg: missing_label(k).to_owned() };
                row.clear_cached(k);
            },
            Mark::Run => {
                *row.cell_mut(k) = MetricCell::Running { frame: 0, values: Vec::new() };
                let cache = row.cached_mut(k);
                cache.stats = None;
                cache.text = String::new();
                cache.finished = None;
            },
        }
        p += 1;
    }
    assert(row@ =~= want);
}

fn mark_rows(
    rows: &mut Vec<QueueRow>,
    kinds: &Vec<MetricKind>,
    cur: &Stamp,
    b: &Binaries,
    go: bool,
)
    ensures
        row_views(final(rows)@) == marked_rows(row_views(old(rows)@), kinds@, cur@, b@, go),
{
    let ghost r0 = row_views(rows@);
    let ghost want = marked_rows(r0, kinds@, cur@, b@, go);
    let n: usize = rows.len();
    let mut i: usize = 0;
    while i < n
        invariant
            i <= n,
            n == rows@.len(),
            n == r0.len(),
            want == marked_rows(r0, kinds@, cur@, b@, go),
            forall|j: int| 0 <= j < i ==> (#[trigger] rows@[j])@ == want[j],
            forall|j: int| i <= j < n ==> (#[trigger] rows@[j])@ == r0[j],
        decreases n - i,
    {
        assert(rows@[i as int]@ == r0[i as int]);
        let row = &mut rows[i];
        mark_row(row, kinds, cur, b, go);
        i += 1;
    }
    assert(row_views(rows@) =~= want);
}

/// A file that is not included is left alone by a start, and so is a result
/// that is not stale.
pub proof fn lemma_start_keeps_others(
    r: RowView,
    kinds: Seq<MetricKind>,
    kind: MetricKind,
    cur: StampView,
    b: BinariesView,
    go: bool,
)
    requires
        !r.included || sits_out(r, kind, cur) || !kinds.contains(kind),
    ensures
        marked_row(r, kinds, cur, b, go).cell(kind) == r.cell(kind),
        marked_row(r, kinds, cur, b, go).cache(kind) == r.cache(kind),
{
    lemma_kind_at(kind);
}

proof fn lemma_marked_ok(
    r: RowView,
    kinds: Seq<MetricKind>,
    cur: StampView,
    b: BinariesView,
    go: bool,
)
    requires
        row_ok(r),
    ensures
        row_ok(marked_row(r, kinds, cur, b, go)),
{
    let m = marked_row(r, kinds, cur, b, go);
    assert forall|k: MetricKind| (#[trigger] m.cache(k)).stats is Some <==> finished(m.cell(k)) by {
        lemma_kind_at(k);
        assert(r.cache(k).stats is Some <==> finished(r.cell(k)));
    }
}

proof fn lemma_failed_ok(r: RowView, kinds: Seq<MetricKind>, msg: Seq<char>)
    requires
        row_ok(r),
    ensures
        row_ok(failed_row(r, kinds, msg)),
{
    let m = failed_row(r, kinds, msg);
    assert forall|k: MetricKind| (#[trigger] m.cache(k)).stats is Some <==> finished(m.cell(k)) by {
        lemma_kind_at(k);
        assert(r.cache(k).stats is Some <==> finished(r.cell(k)));
    }
}

proof fn lemma_reranked_sound(q: QueueView, rows: Seq<RowView>, kinds: Seq<MetricKind>)
    requires
        queue_ok(q),
        rows.len() == q.rows.len(),
        forall|i: int|
            0 <= i < rows.len() ==> (#[trigger] rows[i]).key == q.rows[i].key
                && rows[i].color_idx == q.rows[i].color_idx && row_ok(rows[i]),
    ensures
        queue_ok(QueueView { rows: reranked_by(rows, kinds), ..q }),
{
    assert forall|i: int| 0 <= i < rows.len() implies (#[trigger] rows[i]).caches.len() == 7 by {
        assert(row_ok(rows[i]));
    }
    lemma_reranked_by_keeps(rows, kinds);
    let p = QueueView { rows: reranked_by(rows, kinds), ..q };
    assert forall|i: int| 0 <= i < p.rows.len() implies (#[trigger] p.rows[i]).key
        == q.rows[i].key && p.rows[i].color_idx == q.rows[i].color_idx && row_ok(p.rows[i]) by {
        assert(same_but_ranks(p.rows[i], rows[i]));
        lemma_ranks_leave_row_ok(rows[i], p.rows[i]);
    }
    lemma_sound_by_rows(q, p);
}

// ---- Jobs ----

/// One metric of one file, to be computed.
#[derive(Debug)]
pub struct RunJob {
    pub kind: MetricKind,
    pub key: String,
    pub path: String,
    pub info: MediaInfo,
    pub exe: String,
}

pub struct RunJobView {
    pub kind: MetricKind,
    pub key: Seq<char>,
    pub path: Seq<char>,
    pub info: MediaView,
    pub exe: Seq<char>,
}

impl View for RunJob {
    type V = RunJobView;

    open spec fn view(&self) -> RunJobView {
        RunJobView {
            kind: self.kind,
            key: self.key@,
            path: self.path@,
            info: self.info@,
            exe: self.exe@,
        }
    }
}

pub open spec fn run_jobs(v: Seq<RunJob>) -> Seq<RunJobView> {
    v.map_values(|j: RunJob| j@)
}

/// The jobs of one metric, file by file.
pub open spec fn jobs_of_kind(rows: Seq<RowView>, kind: MetricKind, cur: StampView, exe: Seq<char>) -> Seq<
    RunJobView,
>
    decreases rows.len(),
{
    if rows.len() == 0 {
        Seq::empty()
    } else {
        let head = jobs_of_kind(rows.drop_last(), kind, cur, exe);
        let r = rows.last();
        if due(r, kind, cur) && r.info is Some {
            head.push(RunJobView { kind, key: r.key, path: r.path, info: r.info->0, exe })
        } else {
            head
        }
    }
}

/// The jobs of a run, metric by metric.
pub open spec fn jobs_of(
    rows: Seq<RowView>,
    kinds: Seq<MetricKind>,
    cur: StampView,
    b: BinariesView,
) -> Seq<RunJobView>
    decreases kinds.len(),
{
    if kinds.len() == 0 {
        Seq::empty()
    } else {
        let head = jobs_of(rows, kinds.drop_last(), cur, b);
        match exe_for(b, kinds.last()) {
            Some(exe) => head + jobs_of_kind(rows, kinds.last(), cur, exe),
            None => head,
        }
    }
}

fn add_jobs(
    jobs: &mut Vec<RunJob>,
    rows: &Vec<QueueRow>,
    kind: MetricKind,
    cur: &Stamp,
    exe: &str,
)
    ensures
        run_jobs(final(jobs)@) == run_jobs(old(jobs)@) + jobs_of_kind(
            row_views(rows@),
            kind,
            cur@,
            exe@,
        ),
{
    let ghost j0 = run_jobs(jobs@);
    let ghost all = row_views(rows@);
    let mut i: usize = 0;
    assert(all.take(0) =~= Seq::<RowView>::empty());
    assert(run_jobs(jobs@) =~= j0 + jobs_of_kind(all.take(0), kind, cur@, exe@));
    while i < rows.len()
        invariant
            i <= rows@.len(),
            all == row_views(rows@),
            run_jobs(jobs@) == j0 + jobs_of_kind(all.take(i as int), kind, cur@, exe@),
        decreases rows.len() - i,
    {
        let ghost before = run_jobs(jobs@);
        assert(all.take(i + 1).drop_last() =~= all.take(i as int));
        assert(all.take(i + 1).last() == rows@[i as int]@);
        if is_due(&rows[i], kind, cur) {
            if let Some(info) = &rows[i].info {
                jobs.push(
                    RunJob {
                        kind,
                        key: rows[i].key.clone(),
                        path: rows[i].path.clone(),
                        info: info.copy(),
                        exe: exe.to_owned(),
                    },
                );
                assert(run_jobs(jobs@) =~= before.push(jobs@.last()@));
            }
        }
        i += 1;
        assert(run_jobs(jobs@) =~= j0 + jobs_of_kind(all.take(i as int), kind, cur@, exe@));
    }
    assert(all.take(i as int) =~= all);
}

fn jobs_for(rows: &Vec<QueueRow>, kinds: &Vec<MetricKind>, cur: &Stamp, b: &Binaries) -> (r: Vec<RunJob>)
    ensures
        run_jobs(r@) == jobs_of(row_views(rows@), kinds@, cur@, b@),
{
    let mut r: Vec<RunJob> = Vec::new();
    let mut i: usize = 0;
    assert(kinds@.take(0) =~= Seq::<MetricKind>::empty());
    assert(run_jobs(r@) =~= Seq::<RunJobView>::empty());
    while i < kinds.len()
        invariant
            i <= kinds@.len(),
            run_jobs(r@) == jobs_of(row_views(rows@), kinds@.take(i as int), cur@, b@),
        decreases kinds.len() - i,
    {
        assert(kinds@.take(i + 1).drop_last() =~= kinds@.take(i as int));
        match exe_of(b, kinds[i]) {
            Some(exe) => add_jobs(&mut r, rows, kinds[i], cur, exe.as_str()),
            None => {},
        }
        i += 1;
    }
    assert(kinds@.take(i as int) =~= kinds@);
    r
}

proof fn lemma_job_of_kind(rows: Seq<RowView>, kind: MetricKind, cur: StampView, exe: Seq<char>, i: int)
    requires
        0 <= i < rows.len(),
        due(rows[i], kind, cur),
        rows[i].info is Some,
    ensures
        jobs_of_kind(rows, kind, cur, exe).contains(
            RunJobView {
                kind,
                key: rows[i].key,
                path: rows[i].path,
                info: rows[i].info->0,
                exe,
            },
        ),
    decreases rows.len(),
{
    let j = RunJobView {
        kind,
        key: rows[i].key,
        path: rows[i].path,
        info: rows[i].info->0,
        exe,
    };
    let head = jobs_of_kind(rows.drop_last(), kind, cur, exe);
    let all = jobs_of_kind(rows, kind, cur, exe);
    if i < rows.len() - 1 {
        lemma_job_of_kind(rows.drop_last(), kind, cur, exe, i);
        let a = choose|a: int| 0 <= a < head.len() && head[a] == j;
        assert(all[a] == j);
    } else {
        assert(all[head.len() as int] == j);
    }
}

/// Every cell that a start sets running has its job.
pub proof fn lemma_running_cells_have_jobs(
    rows: Seq<RowView>,
    kinds: Seq<MetricKind>,
    cur: StampView,
    b: BinariesView,
    i: int,
    kind: MetricKind,
)
    requires
        0 <= i < rows.len(),
        mark_of(rows[i], kinds, kind, cur, b, true) is Run,
    ensures
        jobs_of(rows, kinds, cur, b).contains(
            RunJobView {
                kind,
                key: rows[i].key,
                path: rows[i].path,
                info: rows[i].info->0,
                exe: exe_for(b, kind)->0,
            },
        ),
    decreases kinds.len(),
{
    let j = RunJobView {
        kind,
        key: rows[i].key,
        path: rows[i].path,
        info: rows[i].info->0,
        exe: exe_for(b, kind)->0,
    };
    let head = jobs_of(rows, kinds.drop_last(), cur, b);
    let all = jobs_of(rows, kinds, cur, b);
    if kinds.last() == kind {
        let own = jobs_of_kind(rows, kind, cur, exe_for(b, kind)->0);
        lemma_job_of_kind(rows, kind, cur, exe_for(b, kind)->0, i);
        let a = choose|a: int| 0 <= a < own.len() && own[a] == j;
        assert(all[head.len() + a] == j);
    } else {
        let at = choose|at: int| 0 <= at < kinds.len() && kinds[at] == kind;
        assert(kinds.drop_last()[at] == kind);
        lemma_running_cells_have_jobs(rows, kinds.drop_last(), cur, b, i, kind);
        let a = choose|a: int| 0 <= a < head.len() && head[a] == j;
        assert(all[a] == j);
    }
}

// ---- The start ----

/// What the outside says before a run.
#[derive(Debug, Clone, Copy)]
pub struct StartInputs {
    /// Whether the reference is a file.
    pub ref_is_file: bool,
    /// Whether the reference is known by now.
    pub ref_known: bool,
    /// The skipped time; none where the box holds no time.
    pub skip: Option<Option<Num>>,
    /// The measured time; none where the box holds no time.
    pub clip: Option<Option<Num>>,
    /// How many threads the system offers.
    pub threads: u32,
}

/// What a start comes to.
pub struct Started {
    pub rows: Seq<RowView>,
    pub jobs: Seq<RunJobView>,
    pub note: Option<ToastView>,
}

pub open spec fn told(text: Seq<char>, kind: ToastKind) -> Option<ToastView> {
    Some(ToastView { text, kind })
}

/// A start that comes to nothing but a note.
pub open spec fn only_note(rows: Seq<RowView>, note: Option<ToastView>) -> Started {
    Started { rows, jobs: Seq::empty(), note }
}

/// What a start comes to once the settings are known.
pub open spec fn start_work(
    rows: Seq<RowView>,
    kinds: Seq<MetricKind>,
    cur: StampView,
    b: BinariesView,
    ref_known: bool,
) -> Started {
    let works = works_of(rows, kinds, cur);
    let groups = grouped(works);
    let missing = missing_labels(works, b);
    let missing_note = if missing.len() > 0 {
        told(join(missing, " + "@), ToastKind::Error)
    } else {
        None
    };
    if nothing_due(works) {
        only_note(
            rows,
            told(
                join(skip_lines(groups, false), "\n"@) + " (Reset to recompute)"@,
                ToastKind::Info,
            ),
        )
    } else if !ref_known {
        only_note(
            if missing.len() > 0 {
                reranked_by(marked_rows(rows, kinds, cur, b, false), kinds)
            } else {
                rows
            },
            told("Reference is still probing — try again in a moment"@, ToastKind::Info),
        )
    } else {
        let jobs = jobs_of(rows, kinds, cur, b);
        Started {
            rows: reranked_by(marked_rows(rows, kinds, cur, b, true), kinds),
            jobs,
            note: if jobs.len() == 0 {
                if missing.len() == 0 {
                    told("Files are still probing — try again in a moment"@, ToastKind::Info)
                } else {
                    missing_note
                }
            } else if groups.len() > 0 {
                told(join(skip_lines(groups, true), "\n"@), ToastKind::Info)
            } else {
                missing_note
            },
        }
    }
}

/// Whether any row is included.
pub open spec fn any_included(rows: Seq<RowView>) -> bool {
    exists|i: int| 0 <= i < rows.len() && (#[trigger] rows[i]).included
}

/// What a start comes to.
pub open spec fn start_of(
    rows: Seq<RowView>,
    c: ConfigView,
    b: BinariesView,
    given: StartInputs,
) -> Started {
    let kinds = wanted_kinds(c.metrics, b);
    if b.probing {
        only_note(
            rows,
            told("Binaries still probing — try again in a moment"@, ToastKind::Info),
        )
    } else if kinds.len() == 0 {
        only_note(rows, told("Tick a metric in the table header to run it"@, ToastKind::Info))
    } else if !any_included(rows) {
        only_note(
            rows,
            told("Nothing to run — tick the checkbox in the first column"@, ToastKind::Info),
        )
    } else if blank(c.reference.path) || !given.ref_is_file {
        only_note(
            reranked_by(failed_rows(rows, kinds, "no ref"@), kinds),
            told("Set a reference file first"@, ToastKind::Error),
        )
    } else if given.skip is None || given.clip is None {
        only_note(
            reranked_by(failed_rows(rows, kinds, "bad time"@), kinds),
            told("Skip/Duration is not a valid time"@, ToastKind::Error),
        )
    } else {
        start_work(
            rows,
            kinds,
            run_stamp(c, given.skip->0, given.clip->0, given.threads),
            b,
            given.ref_known,
        )
    }
}

fn is_any_included(rows: &Vec<QueueRow>) -> (r: bool)
    ensures
        r == any_included(row_views(rows@)),
{
    let mut i: usize = 0;
    while i < rows.len()
        invariant
            i <= rows@.len(),
            forall|j: int| 0 <= j < i ==> !(#[trigger] rows@[j]).included,
        decreases rows.len() - i,
    {
        if rows[i].included {
            assert(row_views(rows@)[i as int].included);
            return true;
        }
        i += 1;
    }
    assert forall|j: int| 0 <= j < row_views(rows@).len() implies !(
    #[trigger] row_views(rows@)[j]).included by {
        assert(row_views(rows@)[j] == rows@[j]@);
    }
    false
}

fn fail_start(queue: &mut QueueModel, kinds: &Vec<MetricKind>, msg: &str)
    ensures
        final(queue)@ == (QueueView {
            rows: reranked_by(failed_rows(old(queue)@.rows, kinds@, msg@), kinds@),
            ..old(queue)@
        }),
        queue_ok(old(queue)@) ==> queue_ok(final(queue)@),
{
    let ghost q0 = queue@;
    fail_rows(&mut queue.rows, kinds, msg);
    let ghost mid = queue@.rows;
    rerank_kinds(&mut queue.rows, kinds);
    proof {
        if queue_ok(q0) {
            assert forall|i: int| 0 <= i < mid.len() implies (#[trigger] mid[i]).key
                == q0.rows[i].key && mid[i].color_idx == q0.rows[i].color_idx && row_ok(mid[i]) by {
                assert(row_ok(q0.rows[i]));
                lemma_failed_ok(q0.rows[i], kinds@, msg@);
            }
            lemma_reranked_sound(q0, mid, kinds@);
        }
    }
}

fn mark_start(
    queue: &mut QueueModel,
    kinds: &Vec<MetricKind>,
    cur: &Stamp,
    b: &Binaries,
    go: bool,
)
    ensures
        final(queue)@ == (QueueView {
            rows: reranked_by(marked_rows(old(queue)@.rows, kinds@, cur@, b@, go), kinds@),
            ..old(queue)@
        }),
        queue_ok(old(queue)@) ==> queue_ok(final(queue)@),
{
    let ghost q0 = queue@;
    mark_rows(&mut queue.rows, kinds, cur, b, go);
    let ghost mid = queue@.rows;
    rerank_kinds(&mut queue.rows, kinds);
    proof {
        if queue_ok(q0) {
            assert forall|i: int| 0 <= i < mid.len() implies (#[trigger] mid[i]).key
                == q0.rows[i].key && mid[i].color_idx == q0.rows[i].color_idx && row_ok(mid[i]) by {
                assert(row_ok(q0.rows[i]));
                lemma_marked_ok(q0.rows[i], kinds@, cur@, b@, go);
            }
            lemma_reranked_sound(q0, mid, kinds@);
        }
    }
}

fn begin_work(
    queue: &mut QueueModel,
    kinds: &Vec<MetricKind>,
    cur: &Stamp,
    b: &Binaries,
    ref_known: bool,
) -> (r: (Vec<RunJob>, Option<Toast>))
    ensures
        ({
            let s = start_work(old(queue)@.rows, kinds@, cur@, b@, ref_known);
            &&& final(queue)@ == (QueueView { rows: s.rows, ..old(queue)@ })
            &&& run_jobs(r.0@) == s.jobs
            &&& opt_toast(r.1) == s.note
        }),
        queue_ok(old(queue)@) ==> queue_ok(final(queue)@),
{
    let works = works_for(&queue.rows, kinds, cur);
    let groups = skip_groups(&works);
    let ghost rows0 = queue@.rows;
    let none: Vec<RunJob> = Vec::new();
    assert(run_jobs(none@) =~= Seq::<RunJobView>::empty());
    if is_nothing_due(&works) {
        let lines = skip_lines_of(&groups, false);
        let mut text = joined(&lines, "\n");
        text.append(" (Reset to recompute)");
        return (none, Some(info(text.as_str())));
    }
    let missing = missing_labels_of(&works, b);
    assert(texts(missing@).len() == missing@.len());
    if !ref_known {
        if missing.len() > 0 {
            mark_start(queue, kinds, cur, b, false);
        }
        return (none, Some(info("Reference is still probing — try again in a moment")));
    }
    let missing_note: Option<Toast> = if missing.len() > 0 {
        Some(error(joined(&missing, " + ").as_str()))
    } else {
        None
    };
    let jobs = jobs_for(&queue.rows, kinds, cur, b);
    assert(run_jobs(jobs@).len() == jobs@.len());
    mark_start(queue, kinds, cur, b, true);
    assert(group_views(groups@).len() == groups@.len());
    if jobs.len() == 0 {
        if missing.len() == 0 {
            (jobs, Some(info("Files are still probing — try again in a moment")))
        } else {
            (jobs, missing_note)
        }
    } else if groups.len() > 0 {
        let lines = skip_lines_of(&groups, true);
        (jobs, Some(info(joined(&lines, "\n").as_str())))
    } else {
        (jobs, missing_note)
    }
}

/// Starts a run: says why it cannot, or sets the cells running that are due
/// and returns their jobs.
pub fn plan_start(
    queue: &mut QueueModel,
    c: &Config,
    b: &Binaries,
    given: StartInputs,
) -> (r: (Vec<RunJob>, Option<Toast>))
    ensures
        ({
            let s = start_of(old(queue)@.rows, c@, b@, given);
            &&& final(queue)@ == (QueueView { rows: s.rows, ..old(queue)@ })
            &&& run_jobs(r.0@) == s.jobs
            &&& opt_toast(r.1) == s.note
        }),
        queue_ok(old(queue)@) ==> queue_ok(final(queue)@),
{
    let none: Vec<RunJob> = Vec::new();
    assert(run_jobs(none@) =~= Seq::<RunJobView>::empty());
    if b.probing {
        return (none, Some(info("Binaries still probing — try again in a moment")));
    }
    let kinds = wanted_kinds_of(&c.metrics, b);
    if kinds.len() == 0 {
        return (none, Some(info("Tick a metric in the table header to run it")));
    }
    if !is_any_included(&queue.rows) {
        return (none, Some(info("Nothing to run — tick the checkbox in the first column")));
    }
    if is_blank(c.reference.path.as_str()) || !given.ref_is_file {
        fail_start(queue, &kinds, "no ref");
        return (none, Some(error("Set a reference file first")));
    }
    match (given.skip, given.clip) {
        (Some(skip), Some(clip)) => {
            let cur = run_stamp_of(c, skip, clip, given.threads);
            begin_work(queue, &kinds, &cur, b, given.ref_known)
        },
        _ => {
            fail_start(queue, &kinds, "bad time");
            (none, Some(error("Skip/Duration is not a valid time")))
        },
    }
}

// ---- What a start comes to ----

/// Whether FFVship, not ffmpeg, computes a metric.
pub open spec fn ffvship_does(kind: MetricKind) -> bool {
    kind is Ssim2 || kind is But || kind is Cvvdp
}

/// A metric is wanted where its own box is ticked, and where ffmpeg is to
/// compute it only if it has the filter.
pub proof fn lemma_ticked_metrics_are_wanted(m: MetricToggles, b: BinariesView, kind: MetricKind)
    ensures
        ({
            let box_on = match kind {
                MetricKind::Psnr => m.psnr,
                MetricKind::Ssim => m.ssim,
                MetricKind::Vmaf => m.vmaf,
                MetricKind::Xpsnr => m.xpsnr,
                MetricKind::Ssim2 => m.ssim2,
                MetricKind::But => m.butteraugli,
                MetricKind::Cvvdp => m.cvvdp,
            };
            wanted_kinds(m, b).contains(kind) <==> box_on && (ffvship_does(kind)
                || b.ffmpeg.supported_metrics.contains(kind))
        }),
{
    lemma_wanted_kinds(m, b, kind);
}

proof fn lemma_jobs_of_kind_are_due(
    rows: Seq<RowView>,
    kind: MetricKind,
    cur: StampView,
    exe: Seq<char>,
    n: int,
) -> (i: int)
    requires
        0 <= n < jobs_of_kind(rows, kind, cur, exe).len(),
    ensures
        0 <= i < rows.len(),
        rows[i].included,
        rows[i].cell(kind) is Done ==> stale(kind, rows[i].cell(kind), cur),
        rows[i].info is Some,
        jobs_of_kind(rows, kind, cur, exe)[n] == (RunJobView {
            kind,
            key: rows[i].key,
            path: rows[i].path,
            info: rows[i].info->0,
            exe,
        }),
    decreases rows.len(),
{
    let head = rows.drop_last();
    let known = jobs_of_kind(head, kind, cur, exe);
    if n < known.len() {
        lemma_jobs_of_kind_are_due(head, kind, cur, exe, n)
    } else {
        rows.len() - 1
    }
}

/// Every job of a run is of an included file that is known, and of a metric
/// that is wanted there and has no current result. It names that file and what
/// is known of it, and the program that computes the metric.
pub proof fn lemma_jobs_are_due(
    rows: Seq<RowView>,
    kinds: Seq<MetricKind>,
    cur: StampView,
    b: BinariesView,
    n: int,
) -> (i: int)
    requires
        0 <= n < jobs_of(rows, kinds, cur, b).len(),
    ensures
        ({
            let job = jobs_of(rows, kinds, cur, b)[n];
            &&& 0 <= i < rows.len()
            &&& rows[i].included && rows[i].info == Some(job.info)
            &&& rows[i].key == job.key && rows[i].path == job.path
            &&& kinds.contains(job.kind)
            &&& rows[i].cell(job.kind) is Done ==> stale(job.kind, rows[i].cell(job.kind), cur)
            &&& ffvship_does(job.kind) ==> b.ffvship.usable && b.ffvship.path == Some(job.exe)
            &&& !ffvship_does(job.kind) ==> b.ffmpeg.path == Some(job.exe)
        }),
    decreases kinds.len(),
{
    let head = kinds.drop_last();
    let known = jobs_of(rows, head, cur, b);
    if n < known.len() {
        let i = lemma_jobs_are_due(rows, head, cur, b, n);
        let job = known[n];
        let a = choose|a: int| 0 <= a < head.len() && head[a] == job.kind;
        assert(kinds[a] == job.kind);
        i
    } else {
        let kind = kinds.last();
        let exe = exe_for(b, kind)->0;
        let i = lemma_jobs_of_kind_are_due(rows, kind, cur, exe, n - known.len());
        assert(kinds[kinds.len() - 1] == kind);
        i
    }
}

/// What becomes of a cell. One whose file is not included, whose metric is not
/// wanted, or that has a current result stays as it is. Of the others one whose
/// program is missing fails and says which, and one whose file is known starts
/// at frame 0 without values.
pub proof fn lemma_marks(
    r: RowView,
    kinds: Seq<MetricKind>,
    kind: MetricKind,
    cur: StampView,
    b: BinariesView,
    go: bool,
)
    ensures
        ({
            let cell = marked_row(r, kinds, cur, b, go).cell(kind);
            let current = r.cell(kind) is Done && !stale(kind, r.cell(kind), cur);
            let missing = if ffvship_does(kind) {
                !b.ffvship.usable || b.ffvship.path is None
            } else {
                b.ffmpeg.path is None
            };
            let asked = r.included && kinds.contains(kind) && !current;
            &&& !asked ==> cell == r.cell(kind)
            &&& asked && missing && ffvship_does(kind) ==> cell == (CellView::Error {
                msg: "FFVship not found"@,
            })
            &&& asked && missing && !ffvship_does(kind) ==> cell == (CellView::Error {
                msg: "ffmpeg not found"@,
            })
            &&& asked && !missing && go && r.info is Some ==> cell == (CellView::Running {
                frame: 0,
                values: Seq::empty(),
            })
            &&& asked && !missing && !(go && r.info is Some) ==> cell == r.cell(kind)
        }),
        marked_row(r, kinds, cur, b, go).path == r.path && marked_row(r, kinds, cur, b, go).key == r.key
            && marked_row(r, kinds, cur, b, go).included == r.included,
{
    lemma_kind_at(kind);
}

/// A start that cannot be made starts nothing and says why. It touches no row
/// while the programs are looked for, where no metric is ticked, or where no
/// file is included.
pub proof fn lemma_refused_starts(
    rows: Seq<RowView>,
    c: ConfigView,
    b: BinariesView,
    given: StartInputs,
)
    ensures
        ({
            let s = start_of(rows, c, b, given);
            let idle = b.probing || wanted_kinds(c.metrics, b).len() == 0 || (forall|i: int|
                0 <= i < rows.len() ==> !(#[trigger] rows[i]).included);
            let no_ref = blank(c.reference.path) || !given.ref_is_file;
            let no_time = given.skip is None || given.clip is None;
            &&& idle ==> s.rows == rows && s.jobs.len() == 0 && s.note is Some && s.note->0.kind is Info
            &&& !idle && (no_ref || no_time) ==> s.jobs.len() == 0 && s.note is Some
                && s.note->0.kind is Error
            &&& !given.ref_known ==> s.jobs.len() == 0
            &&& s.jobs.len() > 0 ==> !idle && !no_ref && !no_time && given.ref_known
        }),
{
}

/// Where there is no reference, or no valid time, every wanted metric of every
/// included file fails and says so; nothing else changes.
pub proof fn lemma_failed_rows(
    rows: Seq<RowView>,
    kinds: Seq<MetricKind>,
    msg: Seq<char>,
    i: int,
    kind: MetricKind,
)
    requires
        0 <= i < rows.len(),
    ensures
        ({
            let r = failed_rows(rows, kinds, msg)[i];
            &&& failed_rows(rows, kinds, msg).len() == rows.len()
            &&& rows[i].included && kinds.contains(kind) ==> r.cell(kind) == (CellView::Error { msg })
                && r.cache(kind).stats is None
            &&& !rows[i].included || !kinds.contains(kind) ==> r.cell(kind) == rows[i].cell(kind)
                && r.cache(kind) == rows[i].cache(kind)
        }),
{
    lemma_kind_at(kind);
}

/// A run's settings are those of the window, and its times those of the boxes.
pub proof fn lemma_stamps_tell_settings(
    c: ConfigView,
    skip: Option<Num>,
    clip: Option<Num>,
    threads: u32,
    kind: MetricKind,
)
    ensures
        ({
            let s = stamp_for(kind, run_stamp(c, skip, clip, threads));
            &&& s.skip == skip && s.clip_dur == clip
            &&& s.scaler == c.view.scale_method && s.fps_mode == c.view.fps_mode && s.ref_pixfmt
                == c.reference.pixfmt
            &&& kind is Vmaf ==> s.vmaf_cfg == Some(vmaf_settings(c.vmaf, threads))
            &&& !(kind is Vmaf) ==> s.vmaf_cfg is None
        }),
{
}

/// As many files are counted as are to be computed or sit out: one more file
/// counts as one where it is included, and as none where it is not.
pub proof fn lemma_files_are_counted_once(rows: Seq<RowView>, r: RowView, kind: MetricKind, cur: StampView)
    ensures
        ({
            let before = work_of(rows, kind, cur);
            let after = work_of(rows.push(r), kind, cur);
            let current = r.cell(kind) is Done && !stale(kind, r.cell(kind), cur);
            &&& after.kind == kind
            &&& r.included && !current ==> after.due == before.due + 1 && after.skipped == before.skipped
            &&& r.included && current ==> after.due == before.due && after.skipped
                == before.skipped.push(r.display)
            &&& !r.included ==> after.due == before.due && after.skipped == before.skipped
        }),
{
    assert(rows.push(r).drop_last() =~= rows);
}

proof fn lemma_group_at(g: Seq<GroupView>, skipped: Seq<Seq<char>>, from: int)
    requires
        0 <= from,
    ensures
        match group_at(g, skipped, from) {
            Some(i) => from <= i < g.len() && g[i].skipped == skipped,
            None => forall|i: int| from <= i < g.len() ==> (#[trigger] g[i]).skipped != skipped,
        },
    decreases g.len() - from,
{
    if from < g.len() && g[from].skipped != skipped {
        lemma_group_at(g, skipped, from + 1);
    }
}

/// A metric that some files sit out is named once more, in a group of just
/// these files; one that none sits out is named in no group.
pub proof fn lemma_metrics_are_grouped_by_files(works: Seq<WorkView>, w: WorkView)
    ensures
        ({
            let before = grouped(works);
            let after = grouped(works.push(w));
            &&& w.skipped.len() == 0 ==> after == before
            &&& w.skipped.len() > 0 ==> exists|i: int|
                0 <= i < after.len() && (#[trigger] after[i]).skipped == w.skipped
                    && after[i].names.len() > 0 && after[i].names.last() == w.kind.name_text()
            &&& before.len() <= after.len() <= before.len() + 1
            &&& forall|i: int|
                0 <= i < before.len() ==> (#[trigger] after[i]).skipped == before[i].skipped
            &&& forall|i: int|
                0 <= i < before.len() && (#[trigger] before[i]).skipped != w.skipped ==> after[i]
                    == before[i]
        }),
        grouped(Seq::empty()).len() == 0,
{
    assert(works.push(w).drop_last() =~= works);
    let before = grouped(works);
    let after = grouped(works.push(w));
    lemma_group_at(before, w.skipped, 0);
    if w.skipped.len() > 0 {
        match group_at(before, w.skipped, 0) {
            Some(i) => {
                assert(after[i].skipped == w.skipped);
            },
            None => {
                assert(after[before.len() as int].skipped == w.skipped);
            },
        }
    }
}

} // verus!
