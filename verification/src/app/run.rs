//! A run: its state, and what the messages of its worker change.
use vstd::prelude::*;
use vstd::string::StringExecFns;
use crate::app::config::Config;
use crate::app::model::{
    all_cleared, cleared, find_row, keyed, lemma_keyed, lemma_sound_by_rows,
    lemma_reranking_is_sound, next_token, queue_ok, refresh_all_ranks, reranked_all, QueueModel,
    QueueView,
};
use crate::app::plots::PlotRuntime;
use crate::app::probing::Binaries;
use crate::app::queue::{row_ok, row_views, CacheView, QueueRow, RowView};
use crate::app::start::{plan_start, run_jobs, start_of, RunJob, StartInputs};
use crate::app::toast::{
    cut_80, cut_to_80, error, info, opt_toast, plural, plural_of, Toast, ToastKind, ToastView,
};
use crate::metrics::cell::{
    finished, short_text, stats_of, CellView, DoneStats, MetricCell, Moments, Stamp, StampView,
};
use crate::metrics::ffmpeg::{all_kinds, MetricKind};
use crate::metrics::ffvship::FfvshipKind;
use crate::num::Num;
use crate::outside::opt_text;
use crate::text::{dec, dec_usize, same, texts};

verus! {

/// The state of a run.
#[derive(Debug)]
pub struct RunRuntime {
    pub measuring: bool,
    /// Jobs that are not done.
    pub pending: usize,
    /// Whose messages count.
    pub generation: u64,
    /// The metric that the worker told of last.
    pub live_kind: Option<MetricKind>,
    /// The file that the worker is at.
    pub live_key: Option<String>,
    /// What was exported, to be told once.
    pub csv_report: Option<(usize, Vec<String>)>,
    /// Results are to be saved.
    pub results_autosave_pending: bool,
}

pub struct RunView {
    pub measuring: bool,
    pub pending: usize,
    pub generation: u64,
    pub live_kind: Option<MetricKind>,
    pub live_key: Option<Seq<char>>,
    pub csv_report: Option<(usize, Seq<Seq<char>>)>,
    pub results_autosave_pending: bool,
}

pub open spec fn opt_report(o: Option<(usize, Vec<String>)>) -> Option<(usize, Seq<Seq<char>>)> {
    match o {
        Some(r) => Some((r.0, texts(r.1@))),
        None => None,
    }
}

impl View for RunRuntime {
    type V = RunView;

    open spec fn view(&self) -> RunView {
        RunView {
            measuring: self.measuring,
            pending: self.pending,
            generation: self.generation,
            live_kind: self.live_kind,
            live_key: opt_text(self.live_key),
            csv_report: opt_report(self.csv_report),
            results_autosave_pending: self.results_autosave_pending,
        }
    }
}

/// No run.
pub open spec fn no_run() -> RunView {
    RunView {
        measuring: false,
        pending: 0,
        generation: 0,
        live_kind: None,
        live_key: None,
        csv_report: None,
        results_autosave_pending: false,
    }
}

impl Default for RunRuntime {
    fn default() -> (r: RunRuntime)
        ensures
            r@ == no_run(),
    {
        RunRuntime {
            measuring: false,
            pending: 0,
            generation: 0,
            live_kind: None,
            live_key: None,
            csv_report: None,
            results_autosave_pending: false,
        }
    }
}

// ---- Start, stop, reset ----

/// The state after a run with so many jobs was started.
pub open spec fn run_on(r: RunView, jobs: nat) -> RunView {
    RunView {
        measuring: true,
        pending: jobs as usize,
        generation: next_token(r.generation),
        live_kind: None,
        live_key: None,
        ..r
    }
}

/// Starts a run, unless one is on: says why it cannot, or sets the cells
/// running that are due and returns their jobs.
pub fn start_run(
    run: &mut RunRuntime,
    queue: &mut QueueModel,
    plots: &mut PlotRuntime,
    c: &Config,
    b: &Binaries,
    given: StartInputs,
) -> (r: (Vec<RunJob>, Option<Toast>))
    ensures
        old(run)@.measuring ==> {
            &&& final(run)@ == old(run)@
            &&& final(queue)@ == old(queue)@
            &&& *final(plots) == *old(plots)
            &&& r.0@.len() == 0
            &&& r.1 is None
        },
        !old(run)@.measuring ==> ({
            let s = start_of(old(queue)@.rows, c@, b@, given);
            &&& final(queue)@ == (QueueView { rows: s.rows, ..old(queue)@ })
            &&& run_jobs(r.0@) == s.jobs
            &&& opt_toast(r.1) == s.note
            &&& final(run)@ == (if s.jobs.len() > 0 {
                run_on(old(run)@, s.jobs.len())
            } else {
                old(run)@
            })
            &&& *final(plots) == (PlotRuntime {
                open: old(plots).open || (s.jobs.len() > 0 && c@.view.plot_at_start),
                ..*old(plots)
            })
        }),
        queue_ok(old(queue)@) ==> queue_ok(final(queue)@),
{
    if run.measuring {
        return (Vec::new(), None);
    }
    let r = plan_start(queue, c, b, given);
    assert(run_jobs(r.0@).len() == r.0@.len());
    let n: usize = r.0.len();
    if n > 0 {
        run.generation = run.generation.wrapping_add(1);
        run.pending = n;
        run.measuring = true;
        run.live_kind = None;
        run.live_key = None;
        if c.view.plot_at_start {
            plots.open = true;
        }
    }
    r
}

impl RunRuntime {
    /// Clears all results; the messages of a worker that is still at it count
    /// no more.
    pub fn reset_psnr(&mut self, queue: &mut QueueModel)
        ensures
            final(self)@ == (RunView {
                measuring: false,
                pending: 0,
                generation: next_token(old(self)@.generation),
                live_kind: None,
                live_key: None,
                ..old(self)@
            }),
            final(queue)@ == (QueueView { rows: all_cleared(old(queue)@.rows), ..old(queue)@ }),
            queue_ok(old(queue)@) ==> queue_ok(final(queue)@),
    {
        self.generation = self.generation.wrapping_add(1);
        self.pending = 0;
        self.measuring = false;
        self.live_kind = None;
        self.live_key = None;
        queue.reset_all();
    }

    /// Clears the results of one metric.
    pub fn reset_metric(&mut self, queue: &mut QueueModel, kind: MetricKind)
        ensures
            final(self)@ == (if old(self)@.live_kind == Some(kind) {
                RunView { live_kind: None, live_key: None, ..old(self)@ }
            } else {
                old(self)@
            }),
            final(queue)@ == (QueueView { rows: cleared(old(queue)@.rows, kind), ..old(queue)@ }),
            queue_ok(old(queue)@) ==> queue_ok(final(queue)@),
    {
        queue.reset_metric(kind);
        let live = match self.live_kind {
            Some(k) => k == kind,
            None => false,
        };
        if live {
            self.live_kind = None;
            self.live_key = None;
        }
    }
}

// ---- Jobs ----

/// What computes a metric.
#[derive(Debug, Clone, Copy, PartialEq, Eq, Structural)]
pub enum Runner {
    Vmaf,
    Ffvship(FfvshipKind),
    Filter,
}

pub open spec fn runner_of(kind: MetricKind) -> Runner {
    if kind is Vmaf {
        Runner::Vmaf
    } else {
        match kind.ffvship_spec() {
            Some(f) => Runner::Ffvship(f),
            None => Runner::Filter,
        }
    }
}

/// What computes a metric.
pub fn runner_for(kind: MetricKind) -> (r: Runner)
    ensures
        r == runner_of(kind),
{
    if matches!(kind, MetricKind::Vmaf) {
        Runner::Vmaf
    } else {
        match kind.ffvship_kind() {
            Some(f) => Runner::Ffvship(f),
            None => Runner::Filter,
        }
    }
}

/// Whether the frames of a finished run are exported.
pub fn wants_csv(enabled: bool, error: &Option<String>, values: &Vec<Num>) -> (r: bool)
    ensures
        r == (enabled && *error is None && values@.len() > 0),
{
    enabled && error.is_none() && values.len() > 0
}

// ---- Messages ----

/// A finished run.
#[derive(Debug)]
pub struct DoneMsg {
    pub kind: MetricKind,
    pub key: String,
    pub values: Vec<Num>,
    /// The pooled value that the tool itself gave.
    pub avg: Option<Num>,
    pub exec_s: Num,
    pub error: Option<String>,
    pub stamp: Stamp,
    /// What arithmetic says of the values.
    pub moments: Moments,
    /// The average as cells show it.
    pub shown: String,
    /// The time on the clock.
    pub now: String,
}

/// What the worker tells.
#[derive(Debug)]
pub enum MetricMsg {
    /// The frame that a job is at.
    Progress { generation: u64, kind: MetricKind, key: String, frame: u64 },
    /// More values of a job.
    Series { generation: u64, kind: MetricKind, key: String, new_values: Vec<Num> },
    Done { generation: u64, done: DoneMsg },
    /// All jobs are done, or the run was stopped.
    Finished { generation: u64, aborted: bool },
    /// How many files were exported, and what went wrong.
    CsvReport { generation: u64, ok: usize, errors: Vec<String> },
}

pub open spec fn moments_fit(m: Moments, n: nat) -> bool {
    n > 0 ==> m.p1_at < n && m.p5_at < n && m.p10_at < n && m.p25_at < n
}

/// A message whose statistics stand within its values.
pub open spec fn msg_ok(m: MetricMsg) -> bool {
    match m {
        MetricMsg::Done { done, .. } => moments_fit(done.moments, done.values@.len()),
        _ => true,
    }
}

/// The worker is at a job.
pub open spec fn live_at(r: RunView, kind: MetricKind, key: Seq<char>) -> RunView {
    RunView { live_kind: Some(kind), live_key: Some(key), ..r }
}

/// A running cell at a later frame.
pub open spec fn cell_at(c: CellView, frame: u64) -> CellView {
    match c {
        CellView::Running { frame: cur, values } => CellView::Running {
            frame: if frame > cur {
                frame
            } else {
                cur
            },
            values,
        },
        _ => c,
    }
}

/// A running cell with more values.
pub open spec fn cell_more(c: CellView, more: Seq<Num>) -> CellView {
    match c {
        CellView::Running { frame, values } => CellView::Running { frame, values: values + more },
        _ => c,
    }
}

/// The rows with the cell of one file changed.
pub open spec fn rows_with_cell(
    rows: Seq<RowView>,
    key: Seq<char>,
    kind: MetricKind,
    change: spec_fn(CellView) -> CellView,
) -> Seq<RowView> {
    match keyed(rows, key, 0) {
        Some(i) => rows.update(i, rows[i].with_cell(kind, change(rows[i].cell(kind)))),
        None => rows,
    }
}

/// The cell of a finished run: a stopped one is as if it had not begun.
pub open spec fn done_cell(
    values: Seq<Num>,
    avg: Option<Num>,
    exec_s: Num,
    error: Option<Seq<char>>,
    stamp: StampView,
    mean: Num,
) -> CellView {
    match error {
        Some(msg) => if msg == "aborted"@ {
            CellView::Idle
        } else {
            CellView::Error { msg }
        },
        None => CellView::Done {
            values,
            avg: match avg {
                Some(a) => a,
                None => mean,
            },
            exec_s,
            stamp,
        },
    }
}

pub open spec fn done_stats(c: CellView, m: Moments) -> Option<DoneStats> {
    match c {
        CellView::Done { values, avg, exec_s, .. } => stats_of(values, avg, exec_s, m),
        _ => None,
    }
}

/// What is kept of a finished run.
pub open spec fn done_cache(
    c: CellView,
    old_cache: CacheView,
    m: Moments,
    shown: Seq<char>,
    now: Seq<char>,
) -> CacheView {
    CacheView {
        stats: done_stats(c, m),
        ranks: old_cache.ranks,
        text: short_text(c, shown),
        finished: if c is Done {
            Some(now)
        } else {
            None
        },
    }
}

pub open spec fn msg_cell(d: DoneMsg) -> CellView {
    done_cell(d.values@, d.avg, d.exec_s, opt_text(d.error), d.stamp@, d.moments.mean)
}

/// A row after a finished run.
pub open spec fn row_done(r: RowView, d: DoneMsg) -> RowView {
    let c = msg_cell(d);
    r.with_cell(d.kind, c).with_cache(
        d.kind,
        done_cache(c, r.cache(d.kind), d.moments, d.shown@, d.now@),
    )
}

/// The rows after a finished run.
pub open spec fn rows_done(rows: Seq<RowView>, d: DoneMsg) -> Seq<RowView> {
    match keyed(rows, d.key@, 0) {
        Some(i) => rows.update(i, row_done(rows[i], d)),
        None => rows,
    }
}

/// Whether another file has a result already.
pub open spec fn other_has_result(rows: Seq<RowView>, kind: MetricKind, key: Seq<char>) -> bool {
    exists|i: int|
        0 <= i < rows.len() && (#[trigger] rows[i]).key != key && finished(rows[i].cell(kind))
}

/// Whether the plot is to follow: the first result of a metric that has no
/// values before, on its open tab.
pub open spec fn plot_follows(
    open: bool,
    tab: MetricKind,
    rows: Seq<RowView>,
    d: DoneMsg,
) -> bool {
    &&& d.kind is Vmaf
    &&& open && tab == d.kind
    &&& d.error is None
    &&& d.values@.len() > 0
    &&& !other_has_result(rows, d.kind, d.key@)
}

/// The state after a finished run.
pub open spec fn run_done(r: RunView, kind: MetricKind, key: Seq<char>) -> RunView {
    RunView {
        live_key: if r.live_kind == Some(kind) && r.live_key == Some(key) {
            None
        } else {
            r.live_key
        },
        pending: if r.pending > 0 {
            (r.pending - 1) as usize
        } else {
            0
        },
        ..r
    }
}

/// A row without running cells.
pub open spec fn row_settled(r: RowView) -> RowView {
    RowView {
        cells: r.cells.map_values(
            |c: CellView|
                if c is Running {
                    CellView::Idle
                } else {
                    c
                },
        ),
        ..r
    }
}

pub open spec fn rows_settled(rows: Seq<RowView>) -> Seq<RowView> {
    rows.map_values(|r: RowView| row_settled(r))
}

fn settle_row(row: &mut QueueRow)
    ensures
        final(row)@ == row_settled(old(row)@),
{
    let all = MetricKind::all();
    let ghost r0 = row@;
    let ghost want = row_settled(r0);
    let mut p: usize = 0;
    while p < 7
        invariant
            p <= 7,
            all@ == all_kinds(),
            all@.len() == 7,
            forall|i: int| 0 <= i < 7 ==> (#[trigger] all@[i]).place() == i,
            want == row_settled(r0),
            r0.cells.len() == 7,
            row@ == (RowView { cells: row@.cells, ..r0 }),
            row@.cells.len() == 7,
            forall|j: int| 0 <= j < p ==> #[trigger] row@.cells[j] == want.cells[j],
            forall|j: int| p <= j < 7 ==> #[trigger] row@.cells[j] == r0.cells[j],
        decreases 7 - p,
    {
        let k = all[p];
        assert(row@.cell(k) == r0.cells[p as int]);
        if row.cell(k).is_running() {
            *row.cell_mut(k) = MetricCell::Idle;
        }
        p += 1;
    }
    assert(row@ =~= want);
}

fn settle_rows(rows: &mut Vec<QueueRow>)
    ensures
        row_views(final(rows)@) == rows_settled(row_views(old(rows)@)),
{
    let ghost r0 = row_views(rows@);
    let ghost want = rows_settled(r0);
    let n: usize = rows.len();
    let mut i: usize = 0;
    while i < n
        invariant
            i <= n,
            n == rows@.len(),
            n == r0.len(),
            want == rows_settled(r0),
            forall|j: int| 0 <= j < i ==> (#[trigger] rows@[j])@ == want[j],
            forall|j: int| i <= j < n ==> (#[trigger] rows@[j])@ == r0[j],
        decreases n - i,
    {
        assert(rows@[i as int]@ == r0[i as int]);
        let row = &mut rows[i];
        settle_row(row);
        i += 1;
    }
    assert(row_views(rows@) =~= want);
}

/// A stopped run leaves no cell running, and every result where it is.
pub proof fn lemma_settled(r: RowView, kind: MetricKind)
    requires
        row_ok(r),
    ensures
        !(row_settled(r).cell(kind) is Running),
        !(r.cell(kind) is Running) ==> row_settled(r).cell(kind) == r.cell(kind),
        row_ok(row_settled(r)),
{
    let s = row_settled(r);
    assert forall|k: MetricKind| (#[trigger] s.cache(k)).stats is Some <==> finished(s.cell(k)) by {
        assert(0 <= k.place() < 7);
        assert(r.cache(k).stats is Some <==> finished(r.cell(k)));
    }
}

fn has_other_result(rows: &Vec<QueueRow>, kind: MetricKind, key: &str) -> (r: bool)
    ensures
        r == other_has_result(row_views(rows@), kind, key@),
{
    let ghost all = row_views(rows@);
    let mut i: usize = 0;
    while i < rows.len()
        invariant
            i <= rows@.len(),
            all == row_views(rows@),
            forall|j: int|
                0 <= j < i ==> !((#[trigger] all[j]).key != key@ && finished(all[j].cell(kind))),
        decreases rows.len() - i,
    {
        assert(all[i as int] == rows@[i as int]@);
        if !same(rows[i].key.as_str(), key) && rows[i].cell(kind).has_values() {
            assert(all[i as int].key != key@);
            return true;
        }
        i += 1;
    }
    false
}

fn cell_of_done(d: &DoneMsg) -> (r: MetricCell)
    ensures
        r@ == msg_cell(*d),
{
    match &d.error {
        Some(msg) => if same(msg.as_str(), "aborted") {
            MetricCell::Idle
        } else {
            MetricCell::Error { msg: msg.clone() }
        },
        None => MetricCell::Done {
            values: copy_nums(&d.values),
            avg: match d.avg {
                Some(a) => a,
                None => d.moments.mean,
            },
            exec_s: d.exec_s,
            stamp: d.stamp.copy(),
        },
    }
}

pub fn copy_nums(v: &Vec<Num>) -> (r: Vec<Num>)
    ensures
        r@ == v@,
{
    let mut r: Vec<Num> = Vec::new();
    let mut i: usize = 0;
    while i < v.len()
        invariant
            i <= v@.len(),
            r@ =~= v@.take(i as int),
        decreases v.len() - i,
    {
        r.push(v[i]);
        i += 1;
    }
    assert(v@.take(i as int) =~= v@);
    r
}

fn stats_of_cell(c: &MetricCell, m: Moments) -> (r: Option<DoneStats>)
    requires
        c@ is Done ==> moments_fit(m, c@->Done_values.len()),
    ensures
        r == done_stats(c@, m),
{
    match c {
        MetricCell::Done { values, avg, exec_s, .. } => DoneStats::new(values, *avg, *exec_s, m),
        _ => None,
    }
}

/// A run and what it shows, while messages are taken.
#[verifier::ext_equal]
pub struct RunState {
    pub run: RunView,
    pub rows: Seq<RowView>,
    /// The plot is to follow.
    pub follow: bool,
    /// Results came or went, so ranks are to be renewed.
    pub scored: bool,
}

pub open spec fn progressed(s: RunState, kind: MetricKind, key: Seq<char>, frame: u64) -> RunState {
    RunState {
        run: live_at(s.run, kind, key),
        rows: rows_with_cell(s.rows, key, kind, |c: CellView| cell_at(c, frame)),
        ..s
    }
}

pub open spec fn grown(s: RunState, kind: MetricKind, key: Seq<char>, more: Seq<Num>) -> RunState {
    RunState {
        run: live_at(s.run, kind, key),
        rows: rows_with_cell(s.rows, key, kind, |c: CellView| cell_more(c, more)),
        ..s
    }
}

pub open spec fn ended(s: RunState, open: bool, tab: MetricKind, d: DoneMsg) -> RunState {
    RunState {
        run: run_done(s.run, d.kind, d.key@),
        rows: rows_done(s.rows, d),
        follow: s.follow || plot_follows(open, tab, s.rows, d),
        scored: s.scored || keyed(s.rows, d.key@, 0) is Some,
    }
}

pub open spec fn run_over(s: RunState, autosave: bool, aborted: bool) -> RunState {
    RunState {
        run: RunView {
            measuring: false,
            pending: 0,
            live_key: None,
            results_autosave_pending: s.run.results_autosave_pending || autosave,
            ..s.run
        },
        rows: if aborted {
            rows_settled(s.rows)
        } else {
            s.rows
        },
        ..s
    }
}

pub open spec fn reported(s: RunState, ok: usize, errors: Seq<Seq<char>>) -> RunState {
    if ok > 0 || errors.len() > 0 {
        RunState { run: RunView { csv_report: Some((ok, errors)), ..s.run }, ..s }
    } else {
        s
    }
}

pub open spec fn msg_generation(m: MetricMsg) -> u64 {
    match m {
        MetricMsg::Progress { generation, .. } => generation,
        MetricMsg::Series { generation, .. } => generation,
        MetricMsg::Done { generation, .. } => generation,
        MetricMsg::Finished { generation, .. } => generation,
        MetricMsg::CsvReport { generation, .. } => generation,
    }
}

/// What one message changes; one from an earlier run changes nothing.
pub open spec fn taken(
    s: RunState,
    open: bool,
    tab: MetricKind,
    autosave: bool,
    m: MetricMsg,
) -> RunState {
    if msg_generation(m) != s.run.generation {
        s
    } else {
        match m {
            MetricMsg::Progress { kind, key, frame, .. } => progressed(s, kind, key@, frame),
            MetricMsg::Series { kind, key, new_values, .. } => if new_values@.len() == 0 {
                s
            } else {
                grown(s, kind, key@, new_values@)
            },
            MetricMsg::Done { done, .. } => ended(s, open, tab, done),
            MetricMsg::Finished { aborted, .. } => run_over(s, autosave, aborted),
            MetricMsg::CsvReport { ok, errors, .. } => reported(s, ok, texts(errors@)),
        }
    }
}

/// What messages change, one after another.
pub open spec fn taken_all(
    s: RunState,
    open: bool,
    tab: MetricKind,
    autosave: bool,
    msgs: Seq<MetricMsg>,
) -> RunState
    decreases msgs.len(),
{
    if msgs.len() == 0 {
        s
    } else {
        taken(taken_all(s, open, tab, autosave, msgs.drop_last()), open, tab, autosave, msgs.last())
    }
}

/// After a reset, no message of the run before changes anything.
pub proof fn lemma_reset_drops_messages(
    s: RunState,
    open: bool,
    tab: MetricKind,
    autosave: bool,
    m: MetricMsg,
)
    requires
        msg_generation(m) == s.run.generation,
    ensures
        ({
            let after = RunState {
                run: RunView { generation: next_token(s.run.generation), ..s.run },
                ..s
            };
            taken(after, open, tab, autosave, m) == after
        }),
{
}

/// Only the end of a run ends the measuring: the last result does not.
pub proof fn lemma_only_the_end_ends(
    s: RunState,
    open: bool,
    tab: MetricKind,
    autosave: bool,
    m: MetricMsg,
)
    requires
        s.run.measuring,
        !(m is Finished),
    ensures
        taken(s, open, tab, autosave, m).run.measuring,
{
}

/// The frame of a running cell never goes back, and its values are only added
/// to.
pub proof fn lemma_progress_is_monotonic(c: CellView, frame: u64, more: Seq<Num>)
    requires
        c is Running,
    ensures
        cell_at(c, frame) is Running,
        cell_at(c, frame)->frame >= c->frame,
        cell_at(c, frame)->Running_values == c->Running_values,
        cell_more(c, more) is Running,
        cell_more(c, more)->Running_values.take(c->Running_values.len() as int)
            == c->Running_values,
        cell_more(c, more)->frame == c->frame,
{
    assert((c->Running_values + more).take(c->Running_values.len() as int)
        =~= c->Running_values);
}

proof fn lemma_row_done_ok(r: RowView, d: DoneMsg)
    requires
        row_ok(r),
    ensures
        row_ok(row_done(r, d)),
{
    let p = row_done(r, d);
    assert forall|k: MetricKind| (#[trigger] p.cache(k)).stats is Some <==> finished(p.cell(k)) by {
        assert(0 <= k.place() < 7);
        assert(r.cache(k).stats is Some <==> finished(r.cell(k)));
    }
}

proof fn lemma_running_cell_ok(r: RowView, kind: MetricKind, c: CellView)
    requires
        row_ok(r),
        finished(c) == finished(r.cell(kind)),
    ensures
        row_ok(r.with_cell(kind, c)),
{
    let p = r.with_cell(kind, c);
    assert forall|k: MetricKind| (#[trigger] p.cache(k)).stats is Some <==> finished(p.cell(k)) by {
        assert(0 <= k.place() < 7);
        assert(r.cache(k).stats is Some <==> finished(r.cell(k)));
        if k.place() == kind.place() {
            assert(k == kind);
        }
    }
}

proof fn lemma_update_ok(q: QueueView, i: int, r: RowView)
    requires
        queue_ok(q),
        0 <= i < q.rows.len(),
        r.key == q.rows[i].key,
        r.color_idx == q.rows[i].color_idx,
        row_ok(r),
    ensures
        queue_ok(QueueView { rows: q.rows.update(i, r), ..q }),
{
    let p = QueueView { rows: q.rows.update(i, r), ..q };
    assert forall|j: int| 0 <= j < p.rows.len() implies (#[trigger] p.rows[j]).key
        == q.rows[j].key && p.rows[j].color_idx == q.rows[j].color_idx && row_ok(p.rows[j]) by {
        assert(row_ok(q.rows[j]));
    }
    lemma_sound_by_rows(q, p);
}

/// No message makes a sound queue unsound.
pub proof fn lemma_messages_keep_queue_sound(
    q: QueueView,
    s: RunState,
    open: bool,
    tab: MetricKind,
    autosave: bool,
    m: MetricMsg,
)
    requires
        queue_ok(q),
        s.rows == q.rows,
    ensures
        queue_ok(QueueView { rows: taken(s, open, tab, autosave, m).rows, ..q }),
{
    let rows = taken(s, open, tab, autosave, m).rows;
    if rows == q.rows {
        assert(QueueView { rows: rows, ..q } == q);
    } else {
        match m {
            MetricMsg::Progress { kind, key, frame, .. } => {
                lemma_keyed(q.rows, key@, 0);
                let i = keyed(q.rows, key@, 0)->0;
                assert(row_ok(q.rows[i]));
                let c = cell_at(q.rows[i].cell(kind), frame);
                lemma_running_cell_ok(q.rows[i], kind, c);
                lemma_update_ok(q, i, q.rows[i].with_cell(kind, c));
            },
            MetricMsg::Series { kind, key, new_values, .. } => {
                lemma_keyed(q.rows, key@, 0);
                let i = keyed(q.rows, key@, 0)->0;
                assert(row_ok(q.rows[i]));
                let c = cell_more(q.rows[i].cell(kind), new_values@);
                lemma_running_cell_ok(q.rows[i], kind, c);
                lemma_update_ok(q, i, q.rows[i].with_cell(kind, c));
            },
            MetricMsg::Done { done, .. } => {
                lemma_keyed(q.rows, done.key@, 0);
                let i = keyed(q.rows, done.key@, 0)->0;
                assert(row_ok(q.rows[i]));
                lemma_row_done_ok(q.rows[i], done);
                lemma_update_ok(q, i, row_done(q.rows[i], done));
            },
            MetricMsg::Finished { aborted, .. } => {
                let p = QueueView { rows, ..q };
                assert forall|j: int| 0 <= j < p.rows.len() implies (#[trigger] p.rows[j]).key
                    == q.rows[j].key && p.rows[j].color_idx == q.rows[j].color_idx && row_ok(
                    p.rows[j],
                ) by {
                    assert(row_ok(q.rows[j]));
                    lemma_settled(q.rows[j], MetricKind::Psnr);
                }
                lemma_sound_by_rows(q, p);
            },
            MetricMsg::CsvReport { .. } => {},
        }
    }
}

pub open spec fn state_of(
    run: RunView,
    q: QueueView,
    plots: PlotRuntime,
    scored: bool,
) -> RunState {
    RunState { run, rows: q.rows, follow: plots.fit.follow_pending, scored }
}

pub open spec fn same_plots_but_follow(a: PlotRuntime, b: PlotRuntime) -> bool {
    a == (PlotRuntime {
        fit: crate::plot::PlotFit { follow_pending: a.fit.follow_pending, ..b.fit },
        ..b
    })
}

fn msg_generation_of(m: &MetricMsg) -> (r: u64)
    ensures
        r == msg_generation(*m),
{
    match m {
        MetricMsg::Progress { generation, .. } => *generation,
        MetricMsg::Series { generation, .. } => *generation,
        MetricMsg::Done { generation, .. } => *generation,
        MetricMsg::Finished { generation, .. } => *generation,
        MetricMsg::CsvReport { generation, .. } => *generation,
    }
}

fn take_progress(run: &mut RunRuntime, queue: &mut QueueModel, kind: MetricKind, key: &str, frame: u64)
    ensures
        final(run)@ == live_at(old(run)@, kind, key@),
        final(queue)@ == (QueueView {
            rows: rows_with_cell(old(queue)@.rows, key@, kind, |c: CellView| cell_at(c, frame)),
            ..old(queue)@
        }),
{
    run.live_kind = Some(kind);
    run.live_key = Some(key.to_owned());
    let ghost q0 = queue@;
    let ghost want = rows_with_cell(q0.rows, key@, kind, |c: CellView| cell_at(c, frame));
    if let Some(i) = find_row(&queue.rows, key) {
        let row = &mut queue.rows[i];
        let cell = row.cell_mut(kind);
        match cell {
            MetricCell::Running { frame: cur, .. } => {
                if frame > *cur {
                    *cur = frame;
                }
            },
            _ => {},
        }
        assert(queue@.rows =~= want);
    }
}

fn take_series(
    run: &mut RunRuntime,
    queue: &mut QueueModel,
    kind: MetricKind,
    key: &str,
    more: &Vec<Num>,
)
    ensures
        final(run)@ == live_at(old(run)@, kind, key@),
        final(queue)@ == (QueueView {
            rows: rows_with_cell(old(queue)@.rows, key@, kind, |c: CellView| cell_more(c, more@)),
            ..old(queue)@
        }),
{
    run.live_kind = Some(kind);
    run.live_key = Some(key.to_owned());
    let ghost q0 = queue@;
    let ghost want = rows_with_cell(q0.rows, key@, kind, |c: CellView| cell_more(c, more@));
    if let Some(i) = find_row(&queue.rows, key) {
        let mut add = copy_nums(more);
        let row = &mut queue.rows[i];
        let cell = row.cell_mut(kind);
        match cell {
            MetricCell::Running { values, .. } => {
                values.append(&mut add);
            },
            _ => {},
        }
        assert(queue@.rows =~= want);
    }
}

fn take_done(run: &mut RunRuntime, queue: &mut QueueModel, plots: &mut PlotRuntime, d: &DoneMsg) -> (scored:
    bool)
    requires
        moments_fit(d.moments, d.values@.len()),
    ensures
        final(run)@ == run_done(old(run)@, d.kind, d.key@),
        final(queue)@ == (QueueView { rows: rows_done(old(queue)@.rows, *d), ..old(queue)@ }),
        same_plots_but_follow(*final(plots), *old(plots)),
        final(plots).fit.follow_pending == (old(plots).fit.follow_pending || plot_follows(
            old(plots).open,
            old(plots).tab,
            old(queue)@.rows,
            *d,
        )),
        scored == (keyed(old(queue)@.rows, d.key@, 0) is Some),
{
    let is_live = match (&run.live_kind, &run.live_key) {
        (Some(k), Some(key)) => *k == d.kind && same(key.as_str(), d.key.as_str()),
        _ => false,
    };
    if is_live {
        run.live_key = None;
    }
    run.pending = if run.pending > 0 {
        run.pending - 1
    } else {
        0
    };
    if !d.kind.streams_live_values() && plots.open && plots.tab == d.kind && d.error.is_none()
        && d.values.len() > 0 && !has_other_result(&queue.rows, d.kind, d.key.as_str()) {
        plots.fit.follow_pending = true;
    }
    let ghost q0 = queue@;
    match find_row(&queue.rows, d.key.as_str()) {
        Some(i) => {
            let cell = cell_of_done(d);
            let stats = stats_of_cell(&cell, d.moments);
            let text = cell.cell_text(d.shown.as_str());
            let finished_at: Option<String> = if cell.is_done() {
                Some(d.now.clone())
            } else {
                None
            };
            assert(q0.rows[i as int] == queue.rows@[i as int]@);
            let row = &mut queue.rows[i];
            *row.cell_mut(d.kind) = cell;
            let cache = row.cached_mut(d.kind);
            cache.stats = stats;
            cache.text = text;
            cache.finished = finished_at;
            assert(queue@.rows =~= rows_done(q0.rows, *d));
            true
        },
        None => false,
    }
}

/// Takes one message of the worker; tells whether results came or went.
pub fn take_metric(
    run: &mut RunRuntime,
    queue: &mut QueueModel,
    plots: &mut PlotRuntime,
    autosave: bool,
    m: &MetricMsg,
) -> (scored: bool)
    requires
        msg_ok(*m),
    ensures
        state_of(final(run)@, final(queue)@, *final(plots), scored) == taken(
            state_of(old(run)@, old(queue)@, *old(plots), false),
            old(plots).open,
            old(plots).tab,
            autosave,
            *m,
        ),
        final(queue)@ == (QueueView { rows: final(queue)@.rows, ..old(queue)@ }),
        same_plots_but_follow(*final(plots), *old(plots)),
        queue_ok(old(queue)@) ==> queue_ok(final(queue)@),
{
    proof {
        if queue_ok(queue@) {
            lemma_messages_keep_queue_sound(
                queue@,
                state_of(run@, queue@, *plots, false),
                plots.open,
                plots.tab,
                autosave,
                *m,
            );
        }
    }
    if msg_generation_of(m) != run.generation {
        return false;
    }
    match m {
        MetricMsg::Progress { kind, key, frame, .. } => {
            take_progress(run, queue, *kind, key.as_str(), *frame);
            false
        },
        MetricMsg::Series { kind, key, new_values, .. } => {
            if new_values.len() > 0 {
                take_series(run, queue, *kind, key.as_str(), new_values);
            }
            false
        },
        MetricMsg::Done { done, .. } => take_done(run, queue, plots, done),
        MetricMsg::Finished { aborted, .. } => {
            if *aborted {
                settle_rows(&mut queue.rows);
            }
            if autosave {
                run.results_autosave_pending = true;
            }
            run.pending = 0;
            run.measuring = false;
            run.live_key = None;
            false
        },
        MetricMsg::CsvReport { ok, errors, .. } => {
            assert(texts(errors@).len() == errors@.len());
            if *ok > 0 || errors.len() > 0 {
                run.csv_report = Some((*ok, crate::text::copy_all(errors)));
            }
            false
        },
    }
}

/// Takes the messages that came, then renews all ranks where results came or
/// went.
pub fn drain_metric_results(
    run: &mut RunRuntime,
    queue: &mut QueueModel,
    plots: &mut PlotRuntime,
    autosave: bool,
    msgs: &Vec<MetricMsg>,
) -> (activity: bool)
    requires
        forall|i: int| 0 <= i < msgs@.len() ==> msg_ok(#[trigger] msgs@[i]),
    ensures
        ({
            let s = taken_all(
                state_of(old(run)@, old(queue)@, *old(plots), false),
                old(plots).open,
                old(plots).tab,
                autosave,
                msgs@,
            );
            &&& final(run)@ == s.run
            &&& final(queue)@ == (QueueView {
                rows: if s.scored {
                    reranked_all(s.rows)
                } else {
                    s.rows
                },
                ..old(queue)@
            })
            &&& final(plots).fit.follow_pending == s.follow
        }),
        same_plots_but_follow(*final(plots), *old(plots)),
        activity == (msgs@.len() > 0),
        queue_ok(old(queue)@) ==> queue_ok(final(queue)@),
{
    let ghost open = plots.open;
    let ghost tab = plots.tab;
    let ghost q0 = queue@;
    let ghost p0 = *plots;
    let ghost start = state_of(run@, queue@, *plots, false);
    let mut scored = false;
    let mut i: usize = 0;
    assert(msgs@.take(0) =~= Seq::<MetricMsg>::empty());
    while i < msgs.len()
        invariant
            i <= msgs@.len(),
            forall|j: int| 0 <= j < msgs@.len() ==> msg_ok(#[trigger] msgs@[j]),
            plots.open == open,
            plots.tab == tab,
            same_plots_but_follow(*plots, p0),
            queue@ == (QueueView { rows: queue@.rows, ..q0 }),
            queue_ok(q0) ==> queue_ok(queue@),
            state_of(run@, queue@, *plots, scored) == taken_all(
                start,
                open,
                tab,
                autosave,
                msgs@.take(i as int),
            ),
        decreases msgs.len() - i,
    {
        assert(msgs@.take(i + 1).drop_last() =~= msgs@.take(i as int));
        let ghost before = state_of(run@, queue@, *plots, scored);
        let ghost plain = state_of(run@, queue@, *plots, false);
        let changed = take_metric(run, queue, plots, autosave, &msgs[i]);
        proof {
            lemma_scored_adds(plain, before, open, tab, autosave, msgs@[i as int]);
        }
        scored = scored || changed;
        i += 1;
    }
    assert(msgs@.take(i as int) =~= msgs@);
    if scored {
        proof {
            if queue_ok(queue@) {
                lemma_reranking_is_sound(queue@);
            }
        }
        refresh_all_ranks(&mut queue.rows);
    }
    msgs.len() > 0
}

proof fn lemma_scored_adds(
    plain: RunState,
    s: RunState,
    open: bool,
    tab: MetricKind,
    autosave: bool,
    m: MetricMsg,
)
    requires
        plain == (RunState { scored: false, ..s }),
    ensures
        taken(s, open, tab, autosave, m) == (RunState {
            scored: s.scored || taken(plain, open, tab, autosave, m).scored,
            ..taken(plain, open, tab, autosave, m)
        }),
{
}

// ---- The worker's end ----

/// How the exports of a run went.
#[derive(Debug)]
pub struct CsvTally {
    pub ok: usize,
    pub errors: Vec<String>,
}

impl CsvTally {
    pub fn new() -> (r: CsvTally)
        ensures
            r.ok == 0,
            r.errors@.len() == 0,
    {
        CsvTally { ok: 0, errors: Vec::new() }
    }

    /// Notes an export: that it was written, or what went wrong.
    pub fn note(&mut self, error: Option<String>)
        requires
            old(self).ok < usize::MAX,
        ensures
            match error {
                Some(e) => final(self).ok == old(self).ok && final(self).errors@ == old(self).errors@.push(e),
                None => final(self).ok == old(self).ok + 1 && final(self).errors@ == old(self).errors@,
            },
    {
        match error {
            Some(e) => {
                self.errors.push(e);
            },
            None => {
                self.ok = self.ok + 1;
            },
        }
    }

    /// What the worker tells at its end: that the run is over and, where
    /// exports were asked for, how they went.
    pub fn end_messages(self, generation: u64, aborted: bool, enabled: bool) -> (r: Vec<MetricMsg>)
        ensures
            r@ == seq![MetricMsg::Finished { generation, aborted }] + (if enabled {
                seq![MetricMsg::CsvReport { generation, ok: self.ok, errors: self.errors }]
            } else {
                Seq::empty()
            }),
    {
        let mut r: Vec<MetricMsg> = Vec::new();
        r.push(MetricMsg::Finished { generation, aborted });
        if enabled {
            r.push(MetricMsg::CsvReport { generation, ok: self.ok, errors: self.errors });
        }
        r
    }
}

// ---- Notes ----

/// The note on exported files.
pub open spec fn csv_note(ok: nat, errors: Seq<Seq<char>>) -> ToastView {
    if errors.len() == 0 {
        ToastView {
            text: "Saved "@ + dec(ok) + " CSV file"@ + plural(ok),
            kind: ToastKind::Info,
        }
    } else {
        ToastView {
            text: "CSV export failed for "@ + dec(errors.len()) + " file"@ + plural(errors.len())
                + ": "@ + cut_80(errors[0]),
            kind: ToastKind::Error,
        }
    }
}

/// The note on exported files: how many, or the first of what went wrong.
pub fn csv_toast(ok: usize, errors: &Vec<String>) -> (r: Toast)
    ensures
        r@ == csv_note(ok as nat, texts(errors@)),
{
    assert(texts(errors@).len() == errors@.len());
    if errors.len() == 0 {
        let mut s = "Saved ".to_owned();
        s.append(dec_usize(ok).as_str());
        s.append(" CSV file");
        s.append(plural_of(ok));
        info(s.as_str())
    } else {
        assert(texts(errors@)[0] == errors@[0]@);
        let mut s = "CSV export failed for ".to_owned();
        s.append(dec_usize(errors.len()).as_str());
        s.append(" file");
        s.append(plural_of(errors.len()));
        s.append(": ");
        s.append(cut_to_80(errors[0].as_str()).as_str());
        error(s.as_str())
    }
}

// ---- What the messages of a run change ----

/// A run that ends leaves its result in the cell of its own metric and file:
/// the values, the pooled value or else the mean, and the settings. A stopped
/// one leaves the cell idle, a failed one what went wrong. All other cells of
/// the file stay as they are.
pub proof fn lemma_results_land_in_their_cell(r: RowView, d: DoneMsg, other: MetricKind)
    requires
        r.cells.len() == 7 && r.caches.len() == 7,
    ensures
        ({
            let after = row_done(r, d);
            let cell = after.cell(d.kind);
            &&& d.error is Some && d.error->0@ == "aborted"@ ==> cell is Idle
            &&& d.error is Some && d.error->0@ != "aborted"@ ==> cell == (CellView::Error {
                msg: d.error->0@,
            })
            &&& d.error is None ==> {
                &&& cell is Done
                &&& cell->Done_values == d.values@
                &&& cell->exec_s == d.exec_s
                &&& cell->stamp == d.stamp@
                &&& d.avg is Some ==> cell->avg == d.avg->0
                &&& d.avg is None ==> cell->avg == d.moments.mean
                &&& after.cache(d.kind).finished == Some(d.now@)
            }
            &&& d.error is Some ==> after.cache(d.kind).finished is None && after.cache(d.kind).stats is None
            &&& other != d.kind ==> after.cell(other) == r.cell(other) && after.cache(other) == r.cache(
                other,
            )
            &&& after.key == r.key && after.path == r.path && after.included == r.included
        }),
{
}

/// A message of a run changes the cell of the file and metric that it names
/// and no other: progress moves its frame on, a series adds its values behind
/// those that are there, and neither touches a cell that is not running.
pub proof fn lemma_messages_change_their_cell(
    s: RunState,
    kind: MetricKind,
    key: Seq<char>,
    frame: u64,
    more: Seq<Num>,
    i: int,
    other: MetricKind,
)
    requires
        0 <= i < s.rows.len(),
        forall|j: int| 0 <= j < s.rows.len() ==> (#[trigger] s.rows[j]).cells.len() == 7,
        forall|a: int, b: int|
            0 <= a < b < s.rows.len() ==> (#[trigger] s.rows[a]).key != (#[trigger] s.rows[b]).key,
    ensures
        ({
            let p = progressed(s, kind, key, frame);
            let g = grown(s, kind, key, more);
            let c = s.rows[i].cell(kind);
            let mine = s.rows[i].key == key;
            &&& p.rows.len() == s.rows.len() && g.rows.len() == s.rows.len()
            &&& !mine ==> p.rows[i] == s.rows[i] && g.rows[i] == s.rows[i]
            &&& other != kind ==> p.rows[i].cell(other) == s.rows[i].cell(other) && g.rows[i].cell(other)
                == s.rows[i].cell(other)
            &&& mine && !(c is Running) ==> p.rows[i].cell(kind) == c && g.rows[i].cell(kind) == c
            &&& mine && c is Running ==> {
                &&& p.rows[i].cell(kind) is Running && g.rows[i].cell(kind) is Running
                &&& frame >= c->frame ==> p.rows[i].cell(kind)->frame == frame
                &&& frame < c->frame ==> p.rows[i].cell(kind)->frame == c->frame
                &&& p.rows[i].cell(kind)->Running_values == c->Running_values
                &&& g.rows[i].cell(kind)->Running_values == c->Running_values + more
                &&& g.rows[i].cell(kind)->frame == c->frame
            }
            &&& p.run.live_kind == Some(kind) && p.run.live_key == Some(key)
            &&& g.run.live_kind == Some(kind) && g.run.live_key == Some(key)
            &&& p.run.pending == s.run.pending && g.run.pending == s.run.pending
        }),
{
    lemma_keyed(s.rows, key, 0);
    match keyed(s.rows, key, 0) {
        Some(j) => {
            if j < i {
                assert(s.rows[j].key != s.rows[i].key);
            } else if i < j {
                assert(s.rows[i].key != s.rows[j].key);
            }
        },
        None => {},
    }
}

/// A result lets one job less be pending, and the end of a run all of them. The
/// end of a run that was not stopped leaves every cell as it is.
pub proof fn lemma_jobs_are_counted_down(
    s: RunState,
    open: bool,
    tab: MetricKind,
    d: DoneMsg,
    autosave: bool,
    aborted: bool,
)
    ensures
        ({
            let e = ended(s, open, tab, d);
            let o = run_over(s, autosave, aborted);
            &&& s.run.pending > 0 ==> e.run.pending == s.run.pending - 1
            &&& s.run.pending == 0 ==> e.run.pending == 0
            &&& e.run.measuring == s.run.measuring && e.run.generation == s.run.generation
            &&& s.run.live_kind == Some(d.kind) && s.run.live_key == Some(d.key@) ==> e.run.live_key is None
            &&& s.run.live_kind != Some(d.kind) || s.run.live_key != Some(d.key@) ==> e.run.live_key
                == s.run.live_key
            &&& !o.run.measuring && o.run.pending == 0 && o.run.live_key is None
            &&& !aborted ==> o.rows == s.rows
            &&& autosave ==> o.run.results_autosave_pending
            &&& !autosave ==> o.run.results_autosave_pending == s.run.results_autosave_pending
        }),
{
}

/// A started run measures, has all of its jobs before it, and no message of an
/// earlier run counts any more.
pub proof fn lemma_started_run(r: RunView, jobs: nat)
    requires
        jobs <= usize::MAX,
    ensures
        ({
            let s = run_on(r, jobs);
            &&& s.measuring && s.pending == jobs
            &&& s.generation != r.generation
            &&& s.live_kind is None && s.live_key is None
            &&& s.csv_report == r.csv_report
        }),
{
}

/// Each metric has its runner: VMAF its own, the three of FFVship theirs, and
/// the others a filter of ffmpeg.
pub proof fn lemma_runners(kind: MetricKind)
    ensures
        kind is Vmaf ==> runner_of(kind) is Vmaf,
        kind is Psnr || kind is Ssim || kind is Xpsnr ==> runner_of(kind) is Filter,
        kind is Ssim2 ==> runner_of(kind) == Runner::Ffvship(FfvshipKind::Ssimulacra2),
        kind is But ==> runner_of(kind) == Runner::Ffvship(FfvshipKind::Butteraugli),
        kind is Cvvdp ==> runner_of(kind) == Runner::Ffvship(FfvshipKind::Cvvdp),
{
}

/// The plot follows the first result of VMAF on its open tab: not a failed one,
/// not one without values, not while another file has a result.
pub proof fn lemma_plot_follows_first_result(
    open: bool,
    tab: MetricKind,
    rows: Seq<RowView>,
    d: DoneMsg,
    i: int,
)
    ensures
        plot_follows(open, tab, rows, d) ==> open && tab is Vmaf && d.kind is Vmaf && d.error is None
            && d.values@.len() > 0,
        0 <= i < rows.len() && rows[i].key != d.key@ && finished(rows[i].cell(d.kind)) ==> !plot_follows(
            open,
            tab,
            rows,
            d,
        ),
        open && tab is Vmaf && d.kind is Vmaf && d.error is None && d.values@.len() > 0 && (forall|j: int|
            0 <= j < rows.len() && (#[trigger] rows[j]).key != d.key@ ==> !finished(
                rows[j].cell(d.kind),
            )) ==> plot_follows(open, tab, rows, d),
{
}

/// The note on exported files tells of trouble exactly where there was some,
/// and a report is made exactly where there is something to report.
pub proof fn lemma_export_notes(s: RunState, ok: usize, errors: Seq<Seq<char>>)
    ensures
        csv_note(ok as nat, errors).kind is Error <==> errors.len() > 0,
        csv_note(ok as nat, errors).kind is Info <==> errors.len() == 0,
        ok > 0 || errors.len() > 0 ==> reported(s, ok, errors).run.csv_report == Some((ok, errors)),
        ok == 0 && errors.len() == 0 ==> reported(s, ok, errors) == s,
        reported(s, ok, errors).rows == s.rows,
{
}

/// A message of the present run is taken for what it is: progress, values,
/// a result, the end, or a report. Values that are none change nothing, and
/// neither does any message of another run.
pub proof fn lemma_messages_are_taken(
    s: RunState,
    open: bool,
    tab: MetricKind,
    autosave: bool,
    m: MetricMsg,
)
    ensures
        ({
            let after = taken(s, open, tab, autosave, m);
            let present = msg_generation(m) == s.run.generation;
            &&& !present ==> after == s
            &&& present && m is Progress ==> after == progressed(
                s,
                m->Progress_kind,
                m->Progress_key@,
                m->frame,
            )
            &&& present && m is Series && m->new_values@.len() > 0 ==> after == grown(
                s,
                m->Series_kind,
                m->Series_key@,
                m->new_values@,
            )
            &&& present && m is Series && m->new_values@.len() == 0 ==> after == s
            &&& present && m is Done ==> after == ended(s, open, tab, m->done)
            &&& present && m is Finished ==> after == run_over(s, autosave, m->aborted)
            &&& present && m is CsvReport ==> after == reported(s, m->ok, texts(m->errors@))
        }),
{
}

} // verus!
