//! The table of the queue: what its cells and marks show, and what is said
//! about drops.
use vstd::prelude::*;
use vstd::string::StringExecFns;
use crate::app::queue::{DropAction, QueueRow, RowView, SortColumn, SortDir};
use crate::app::run::{RunRuntime, RunView};
use crate::app::toast::{info, opt_toast, warning, Toast, ToastKind, ToastView};
use crate::metrics::cell::{short_text, CellStat, CellView};
use crate::metrics::ffmpeg::MetricKind;
use crate::outside::{file_name, path_file_name};
use crate::text::{dec, dec_usize, same};

verus! {

/// The text of a cell: a result shows the chosen statistic, the average as it
/// was printed when the result came.
pub open spec fn cell_label(r: RowView, kind: MetricKind, stat: CellStat, printed: Seq<char>) -> Seq<
    char,
> {
    match r.cell(kind) {
        CellView::Done { .. } => if stat is Avg || r.cache(kind).stats is None {
            r.cache(kind).text
        } else {
            printed
        },
        c => short_text(c, printed),
    }
}

/// The text of a cell; `printed` is the chosen statistic of a result.
pub fn cell_label_of(r: &QueueRow, kind: MetricKind, stat: CellStat, printed: &str) -> (s: String)
    ensures
        s@ == cell_label(r@, kind, stat, printed@),
{
    let cell = r.cell(kind);
    if cell.is_done() {
        let cached = r.cached(kind);
        if matches!(stat, CellStat::Avg) || cached.stats.is_none() {
            cached.text.clone()
        } else {
            printed.to_owned()
        }
    } else {
        cell.cell_text(printed)
    }
}

/// Whether a cell is the one that the worker is at.
pub open spec fn is_live(r: RowView, kind: MetricKind, run: RunView) -> bool {
    r.cell(kind) is Running && run.live_kind == Some(kind) && run.live_key == Some(r.key)
}

/// Whether a cell is the one that the worker is at.
pub fn live_cell(r: &QueueRow, kind: MetricKind, run: &RunRuntime) -> (b: bool)
    ensures
        b == is_live(r@, kind, run@),
{
    let here = match (&run.live_kind, &run.live_key) {
        (Some(k), Some(key)) => *k == kind && same(key.as_str(), r.key.as_str()),
        _ => false,
    };
    here && r.cell(kind).is_running()
}

/// At most one cell of a row is the one that the worker is at.
pub proof fn lemma_one_live_cell(r: RowView, a: MetricKind, b: MetricKind, run: RunView)
    requires
        is_live(r, a, run),
        is_live(r, b, run),
    ensures
        a == b,
{
}

/// The mark of a column: the direction that the rows are sorted by it, if they
/// are.
pub fn sort_mark_for(spec: Option<(SortColumn, SortDir)>, col: SortColumn) -> (r: Option<SortDir>)
    ensures
        r == (match spec {
            Some(s) => if s.0 == col {
                Some(s.1)
            } else {
                None
            },
            None => None,
        }),
{
    match spec {
        Some(s) => if s.0 == col {
            Some(s.1)
        } else {
            None
        },
        None => None,
    }
}

/// The name of a file, to be copied: the last part of its path, or the name
/// that it is shown under.
pub open spec fn name_to_copy(name: Option<Seq<char>>, display: Seq<char>) -> Seq<char> {
    match name {
        Some(n) => n,
        None => display,
    }
}

pub fn copied_name(r: &QueueRow) -> (s: String)
    ensures
        s@ == name_to_copy(file_name(r@.path), r@.display),
{
    match path_file_name(r.path.as_str()) {
        Some(n) => n,
        None => r.display.clone(),
    }
}

/// What is said about a drop.
pub open spec fn drop_note(a: DropAction) -> Option<ToastView> {
    match a {
        DropAction::Blocked => Some(
            ToastView { text: "Stop the run before changing files"@, kind: ToastKind::Info },
        ),
        DropAction::SetRef { extra, .. } => if extra > 0 {
            Some(
                ToastView {
                    text: "Reference takes one file — kept the first, ignored "@ + dec(
                        extra as nat,
                    ) + " more"@,
                    kind: ToastKind::Warning,
                },
            )
        } else {
            None
        },
        _ => None,
    }
}

/// What is said about a drop: that a run is on, or that the reference takes
/// one file.
pub fn drop_toast(a: &DropAction) -> (r: Option<Toast>)
    ensures
        opt_toast(r) == drop_note(*a),
{
    match a {
        DropAction::Blocked => Some(info("Stop the run before changing files")),
        DropAction::SetRef { extra, .. } => if *extra > 0 {
            let mut s = "Reference takes one file — kept the first, ignored ".to_owned();
            s.append(dec_usize(*extra).as_str());
            s.append(" more");
            Some(warning(s.as_str()))
        } else {
            None
        },
        _ => None,
    }
}

/// `Probe timed out: <file>`.
pub fn timeout_toast(name: &str) -> (r: Toast)
    ensures
        r@ == (ToastView { text: "Probe timed out: "@ + name@, kind: ToastKind::Warning }),
{
    let mut s = "Probe timed out: ".to_owned();
    s.append(name);
    warning(s.as_str())
}

/// A result shows the chosen statistic, and the average as it was kept. A cell
/// without a result shows its state, whatever is chosen.
pub proof fn lemma_cells_show_chosen_statistic(
    r: RowView,
    kind: MetricKind,
    stat: CellStat,
    printed: Seq<char>,
)
    ensures
        r.cell(kind) is Done && stat is Avg ==> cell_label(r, kind, stat, printed) == r.cache(kind).text,
        r.cell(kind) is Done && !(stat is Avg) && r.cache(kind).stats is Some ==> cell_label(
            r,
            kind,
            stat,
            printed,
        ) == printed,
        r.cell(kind) is Done && r.cache(kind).stats is None ==> cell_label(r, kind, stat, printed)
            == r.cache(kind).text,
        r.cell(kind) is Idle ==> cell_label(r, kind, stat, printed) == "N/A"@,
        r.cell(kind) is Running ==> cell_label(r, kind, stat, printed) == "Frame: "@ + dec(
            r.cell(kind)->frame as nat,
        ),
        r.cell(kind) is Error ==> cell_label(r, kind, stat, printed) == r.cell(kind)->msg,
{
}

/// A drop is remarked on exactly where it did less than was asked.
pub proof fn lemma_drops_are_remarked(a: DropAction)
    ensures
        drop_note(a) is Some <==> a is Blocked || (a is SetRef && a->extra > 0),
        a is SetRef && a->extra > 0 ==> drop_note(a)->0.kind is Warning,
        a is Blocked ==> drop_note(a)->0.kind is Info,
{
}

/// A cell is the one that the worker is at where it runs and the worker told
/// of its own metric and file last.
pub proof fn lemma_live_cell(r: RowView, kind: MetricKind, run: RunView)
    ensures
        is_live(r, kind, run) ==> r.cell(kind) is Running && run.live_kind == Some(kind) && run.live_key
            == Some(r.key),
        r.cell(kind) is Running && run.live_kind == Some(kind) && run.live_key == Some(r.key) ==> is_live(
            r,
            kind,
            run,
        ),
{
}

} // verus!
