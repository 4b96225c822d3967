//! The plot window: which series it draws, and what becomes of exported
//! pictures.
use vstd::prelude::*;
use vstd::string::StringExecFns;
use crate::app::queue::{row_views, QueueRow, RowView};
use crate::app::toast::{error, info, Toast, ToastKind, ToastView};
use crate::metrics::cell::{CellView, MetricCell};
use crate::metrics::ffmpeg::MetricKind;
use crate::plot::{tab_title, title_text, PlotFit};

verus! {

/// The plot window.
#[derive(Debug)]
pub struct PlotRuntime {
    pub open: bool,
    pub tab: MetricKind,
    pub fit: PlotFit,
    /// The view is to be put back, as soon as it can be.
    pub reset_pending: bool,
    /// Whether the view is kept within the data.
    pub snap: bool,
    /// Whether a picture is being made.
    pub png_saving: bool,
}

impl Default for PlotRuntime {
    fn default() -> (r: PlotRuntime)
        ensures
            !r.open && !r.reset_pending && !r.snap && !r.png_saving,
            r.tab is Psnr,
            r.fit == (PlotFit { live_fit: None, follow_pending: false }),
    {
        PlotRuntime {
            open: false,
            tab: MetricKind::Psnr,
            fit: PlotFit { live_fit: None, follow_pending: false },
            reset_pending: false,
            snap: false,
            png_saving: false,
        }
    }
}

/// Whether a cell has a curve.
pub open spec fn has_curve(c: CellView) -> bool {
    match c {
        CellView::Done { values, .. } => values.len() > 0,
        CellView::Running { values, .. } => values.len() > 0,
        _ => false,
    }
}

/// The rows whose curves are drawn: the included ones that have one.
pub open spec fn curves(rows: Seq<RowView>, kind: MetricKind) -> Seq<int>
    decreases rows.len(),
{
    if rows.len() == 0 {
        Seq::empty()
    } else {
        let head = curves(rows.drop_last(), kind);
        if rows.last().included && has_curve(rows.last().cell(kind)) {
            head.push(rows.len() - 1)
        } else {
            head
        }
    }
}

/// Whether any drawn curve still grows.
pub open spec fn any_grows(rows: Seq<RowView>, kind: MetricKind) -> bool {
    exists|i: int|
        0 <= i < rows.len() && (#[trigger] rows[i]).included && rows[i].cell(kind) is Running
            && has_curve(rows[i].cell(kind))
}

pub open spec fn as_ints(v: Seq<usize>) -> Seq<int> {
    v.map_values(|i: usize| i as int)
}

/// The rows whose curves are drawn, and whether any still grows.
pub fn visible_series(rows: &Vec<QueueRow>, kind: MetricKind) -> (r: (Vec<usize>, bool))
    ensures
        as_ints(r.0@) == curves(row_views(rows@), kind),
        r.1 == any_grows(row_views(rows@), kind),
{
    let ghost all = row_views(rows@);
    let mut v: Vec<usize> = Vec::new();
    let mut grows = false;
    let mut i: usize = 0;
    assert(all.take(0) =~= Seq::<RowView>::empty());
    assert(as_ints(v@) =~= Seq::<int>::empty());
    while i < rows.len()
        invariant
            i <= rows@.len(),
            all == row_views(rows@),
            as_ints(v@) == curves(all.take(i as int), kind),
            grows == exists|j: int|
                0 <= j < i && (#[trigger] all[j]).included && all[j].cell(kind) is Running
                    && has_curve(all[j].cell(kind)),
        decreases rows.len() - i,
    {
        let ghost before = v@;
        assert(all.take(i + 1).drop_last() =~= all.take(i as int));
        assert(all.take(i + 1).last() == rows@[i as int]@);
        assert(all[i as int] == rows@[i as int]@);
        if rows[i].included {
            match rows[i].cell(kind) {
                MetricCell::Done { values, .. } => {
                    if values.len() > 0 {
                        v.push(i);
                        assert(as_ints(v@) =~= as_ints(before).push(i as int));
                    }
                },
                MetricCell::Running { values, .. } => {
                    if values.len() > 0 {
                        v.push(i);
                        grows = true;
                        assert(as_ints(v@) =~= as_ints(before).push(i as int));
                        assert(all[i as int].included);
                    }
                },
                _ => {},
            }
        }
        i += 1;
    }
    assert(all.take(i as int) =~= all);
    (v, grows)
}

/// A row is drawn exactly where it is included and has a curve.
pub proof fn lemma_curves_are_included(rows: Seq<RowView>, kind: MetricKind, i: int)
    requires
        0 <= i < rows.len(),
    ensures
        curves(rows, kind).contains(i) <==> rows[i].included && has_curve(rows[i].cell(kind)),
    decreases rows.len(),
{
    let head = rows.drop_last();
    let c = curves(rows, kind);
    let h = curves(head, kind);
    lemma_curves_bound(head, kind);
    if i < head.len() {
        lemma_curves_are_included(head, kind, i);
        if h.contains(i) {
            let j = choose|j: int| 0 <= j < h.len() && h[j] == i;
            assert(c[j] == i);
        }
        if c.contains(i) {
            let j = choose|j: int| 0 <= j < c.len() && c[j] == i;
            assert(j < h.len());
            assert(h[j] == i);
        }
    } else {
        if rows.last().included && has_curve(rows.last().cell(kind)) {
            assert(c[h.len() as int] == i);
        } else if c.contains(i) {
            let j = choose|j: int| 0 <= j < c.len() && c[j] == i;
            assert(h[j] < head.len());
        }
    }
}

proof fn lemma_curves_bound(rows: Seq<RowView>, kind: MetricKind)
    ensures
        forall|j: int|
            0 <= j < curves(rows, kind).len() ==> 0 <= #[trigger] curves(rows, kind)[j]
                < rows.len(),
    decreases rows.len(),
{
    if rows.len() > 0 {
        let head = rows.drop_last();
        lemma_curves_bound(head, kind);
        let c = curves(rows, kind);
        assert forall|j: int| 0 <= j < c.len() implies 0 <= #[trigger] c[j] < rows.len() by {
            if j < curves(head, kind).len() {
                assert(c[j] == curves(head, kind)[j]);
            }
        }
    }
}

/// How many points are drawn on so many pixels: two on each, within limits.
pub open spec fn budget(width: int) -> int {
    let n = width * 2;
    if n < 512 {
        512
    } else if n > 8192 {
        8192
    } else {
        n
    }
}

pub fn draw_budget(width: usize) -> (r: usize)
    ensures
        r == budget(width as int),
{
    if width < 256 {
        512
    } else if width > 4096 {
        8192
    } else {
        width * 2
    }
}

/// The name that an exported picture is offered.
pub fn export_name(kind: MetricKind) -> (r: String)
    ensures
        r@ == title_text(kind) + ".png"@,
{
    let mut s = tab_title(kind).to_owned();
    s.append(".png");
    s
}

/// How an export went.
#[derive(Debug)]
pub enum PngSaveMsg {
    Saved { path: String },
    CopyReady,
    SaveFailed { err: String },
    CopyFailed { err: String },
}

/// The note on an export.
pub open spec fn export_note(m: PngSaveMsg) -> ToastView {
    match m {
        PngSaveMsg::Saved { path } => ToastView {
            text: "Plot saved to "@ + path@,
            kind: ToastKind::Info,
        },
        PngSaveMsg::CopyReady => ToastView {
            text: "Plot copied to clipboard"@,
            kind: ToastKind::Info,
        },
        PngSaveMsg::SaveFailed { err } => ToastView {
            text: "Could not save plot: "@ + err@,
            kind: ToastKind::Error,
        },
        PngSaveMsg::CopyFailed { err } => ToastView {
            text: "Could not copy plot: "@ + err@,
            kind: ToastKind::Error,
        },
    }
}

impl PlotRuntime {
    /// Takes how an export went: another can be made, and a note is due.
    pub fn take_png(&mut self, msg: PngSaveMsg) -> (r: Toast)
        ensures
            *final(self) == (PlotRuntime { png_saving: false, ..*old(self) }),
            r@ == export_note(msg),
    {
        self.png_saving = false;
        match msg {
            PngSaveMsg::Saved { path } => {
                let mut s = "Plot saved to ".to_owned();
                s.append(path.as_str());
                info(s.as_str())
            },
            PngSaveMsg::CopyReady => info("Plot copied to clipboard"),
            PngSaveMsg::SaveFailed { err } => {
                let mut s = "Could not save plot: ".to_owned();
                s.append(err.as_str());
                error(s.as_str())
            },
            PngSaveMsg::CopyFailed { err } => {
                let mut s = "Could not copy plot: ".to_owned();
                s.append(err.as_str());
                error(s.as_str())
            },
        }
    }
}

/// Two points are drawn on each pixel, but at least 512 and at most 8192.
pub proof fn lemma_budget(width: int)
    ensures
        512 <= budget(width) <= 8192,
        256 <= width <= 4096 ==> budget(width) == 2 * width,
        width < 256 ==> budget(width) == 512,
        width > 4096 ==> budget(width) == 8192,
{
}

/// Curves are drawn in the order of the queue, each once.
pub proof fn lemma_curves_in_order(rows: Seq<RowView>, kind: MetricKind)
    ensures
        forall|a: int, b: int|
            0 <= a < b < curves(rows, kind).len() ==> #[trigger] curves(rows, kind)[a]
                < #[trigger] curves(rows, kind)[b],
    decreases rows.len(),
{
    if rows.len() > 0 {
        let head = curves(rows.drop_last(), kind);
        let all = curves(rows, kind);
        lemma_curves_in_order(rows.drop_last(), kind);
        lemma_curves_bound(rows.drop_last(), kind);
        assert forall|a: int, b: int| 0 <= a < b < all.len() implies #[trigger] all[a]
            < #[trigger] all[b] by {
            assert(all[a] == head[a]);
            if b < head.len() {
                assert(all[b] == head[b]);
            }
        }
    }
}

/// A cell has a curve exactly where it has values, finished or not yet.
pub proof fn lemma_curves_need_values(c: CellView)
    ensures
        c is Done ==> (has_curve(c) <==> c->Done_values.len() > 0),
        c is Running ==> (has_curve(c) <==> c->Running_values.len() > 0),
        c is Idle || c is Error ==> !has_curve(c),
{
}

/// The note on an export tells of trouble exactly where there was some.
pub proof fn lemma_plot_notes(m: PngSaveMsg)
    ensures
        export_note(m).kind is Error <==> m is SaveFailed || m is CopyFailed,
        export_note(m).kind is Info <==> m is Saved || m is CopyReady,
{
}

} // verus!
