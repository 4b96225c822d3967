//! Settings and queue as they are kept from one session to the next, and the
//! results file.
use vstd::prelude::*;
use vstd::string::StringExecFns;
use crate::app::config::{Config, ConfigView, Menus, MenusView, MetricToggles};
use crate::app::config::{ExportView, ReferenceView, ViewOptsView, VmafOpts, VmafOptsView};
use crate::app::model::{
    add_all, adding, job_views, keyed, find_row, lemma_keyed, lemma_same_cells_ok,
    lemma_sound_by_rows, queue_ok, with_files, with_keys, with_paths, Adding, JobView,
    KeyedView, ProbeJob, QueueModel, QueueView,
};
use crate::app::paths::{key_of, norm_key};
use crate::app::probing::{honoured, untick_unsupported_metrics, Binaries, BinariesView};
use crate::app::queue::{row_ok, row_views, QueueRow, RowView};
use crate::app::toast::{warning, opt_toast, Toast, ToastKind, ToastView};
use crate::metrics::badframes::{count_labels, count_labels_of};
use crate::metrics::ffmpeg::{lemma_scale_labels_distinct, ScaleMethod};
use crate::num::Num;
use crate::outside::opt_text;
use crate::plot::{lemma_size_labels_distinct, PlotSize};
use crate::state::{
    entry_views, AppState, EntryView, FileEntry, MetricsState, OptionsState, OptionsView, StateView,
    VmafState, VmafStateView,
};
use crate::text::{dec, dec_u64, has, lemma_parse_dec, parse_nat, parse_u8, put, same, texts};

verus! {

// ---- Saving ----

/// The files of a queue as they are kept.
pub open spec fn entries_of(rows: Seq<RowView>) -> Seq<EntryView> {
    rows.map_values(|r: RowView| EntryView { path: r.path, included: r.included })
}

/// What is kept of a session.
pub open spec fn snapshot_of(c: ConfigView, rows: Seq<RowView>) -> StateView {
    StateView {
        ref_path: c.reference.path,
        skip: c.reference.skip,
        duration: c.reference.duration,
        files: Some(entries_of(rows)),
        metrics: MetricsState {
            psnr: Some(c.metrics.psnr),
            ssim: Some(c.metrics.ssim),
            vmaf: Some(c.metrics.vmaf),
            xpsnr: Some(c.metrics.xpsnr),
            ssim2: Some(c.metrics.ssim2),
            butteraugli: Some(c.metrics.butteraugli),
            cvvdp: Some(c.metrics.cvvdp),
        },
        vmaf: VmafStateView {
            model: Some(c.vmaf.model),
            phone: Some(c.vmaf.phone),
            scale: Some(c.vmaf.scale),
            pooling: Some(c.vmaf.pooling),
            subsample: Some(c.vmaf.subsample),
            threads: Some(c.vmaf.threads),
        },
        options: OptionsView {
            scaling: Some(c.view.scale_method.label_text()),
            fps_mode: Some(c.view.fps_mode),
            cell_stat: Some(c.view.cell_stat),
            cell_precision: Some(dec(c.view.cell_precision as nat)),
            ref_pixfmt: Some(c.reference.pixfmt),
            plot_at_start: Some(c.view.plot_at_start),
            plot_size: Some(c.view.plot_size.label_text()),
            csv_export: Some(c.export.csv_export),
            csv_dir: Some(c.export.csv_dir),
            badframes_count: Some(c.export.badframes_count),
            badframes_export_dir: Some(c.export.badframes_export_dir),
            results_autosave: Some(c.export.results_autosave),
            results_path: Some(c.export.results_path),
        },
    }
}

fn entries_for(rows: &Vec<QueueRow>) -> (r: Vec<FileEntry>)
    ensures
        entry_views(r@) == entries_of(row_views(rows@)),
{
    let ghost want = entries_of(row_views(rows@));
    let mut r: Vec<FileEntry> = Vec::new();
    let mut i: usize = 0;
    while i < rows.len()
        invariant
            i <= rows@.len(),
            want == entries_of(row_views(rows@)),
            entry_views(r@) =~= want.take(i as int),
        decreases rows.len() - i,
    {
        let ghost before = r@;
        r.push(FileEntry { path: rows[i].path.clone(), included: rows[i].included });
        assert(entry_views(r@) =~= entry_views(before).push(want[i as int]));
        i += 1;
        assert(entry_views(r@) =~= want.take(i as int));
    }
    assert(want.take(i as int) =~= want);
    r
}

impl Config {
    /// What is kept of a session.
    pub fn snapshot(&self, queue: &QueueModel) -> (r: AppState)
        ensures
            r@ == snapshot_of(self@, queue@.rows),
    {
        AppState {
            ref_path: self.reference.path.clone(),
            skip: self.reference.skip.clone(),
            duration: self.reference.duration.clone(),
            files: Some(entries_for(&queue.rows)),
            metrics: MetricsState {
                psnr: Some(self.metrics.psnr),
                ssim: Some(self.metrics.ssim),
                vmaf: Some(self.metrics.vmaf),
                xpsnr: Some(self.metrics.xpsnr),
                ssim2: Some(self.metrics.ssim2),
                butteraugli: Some(self.metrics.butteraugli),
                cvvdp: Some(self.metrics.cvvdp),
            },
            vmaf: VmafState {
                model: Some(self.vmaf.model.clone()),
                phone: Some(self.vmaf.phone),
                scale: Some(self.vmaf.scale),
                pooling: Some(self.vmaf.pooling.clone()),
                subsample: Some(self.vmaf.subsample.clone()),
                threads: Some(self.vmaf.threads.clone()),
            },
            options: OptionsState {
                scaling: Some(self.view.scale_method.label().to_owned()),
                fps_mode: Some(self.view.fps_mode.clone()),
                cell_stat: Some(self.view.cell_stat.clone()),
                cell_precision: Some(dec_u64(self.view.cell_precision as u64)),
                ref_pixfmt: Some(self.reference.pixfmt.clone()),
                plot_at_start: Some(self.view.plot_at_start),
                plot_size: Some(self.view.plot_size.label().to_owned()),
                csv_export: Some(self.export.csv_export),
                csv_dir: Some(self.export.csv_dir.clone()),
                badframes_count: Some(self.export.badframes_count.clone()),
                badframes_export_dir: Some(self.export.badframes_export_dir.clone()),
                results_autosave: Some(self.export.results_autosave),
                results_path: Some(self.export.results_path.clone()),
            },
        }
    }
}

fn is_text(o: &Option<String>, s: &str) -> (r: bool)
    ensures
        r == (opt_text(*o) == Some(s@)),
{
    match o {
        Some(t) => same(t.as_str(), s),
        None => false,
    }
}

fn is_flag(o: Option<bool>, v: bool) -> (r: bool)
    ensures
        r == (o == Some(v)),
{
    match o {
        Some(b) => b == v,
        None => false,
    }
}

fn same_metrics(m: &MetricsState, t: &MetricToggles) -> (r: bool)
    ensures
        r == (*m == (MetricsState {
            psnr: Some(t.psnr),
            ssim: Some(t.ssim),
            vmaf: Some(t.vmaf),
            xpsnr: Some(t.xpsnr),
            ssim2: Some(t.ssim2),
            butteraugli: Some(t.butteraugli),
            cvvdp: Some(t.cvvdp),
        })),
{
    is_flag(m.psnr, t.psnr) && is_flag(m.ssim, t.ssim) && is_flag(m.vmaf, t.vmaf) && is_flag(
        m.xpsnr,
        t.xpsnr,
    ) && is_flag(m.ssim2, t.ssim2) && is_flag(m.butteraugli, t.butteraugli) && is_flag(
        m.cvvdp,
        t.cvvdp,
    )
}

fn same_entries(files: &Vec<FileEntry>, rows: &Vec<QueueRow>) -> (r: bool)
    ensures
        r == (entry_views(files@) == entries_of(row_views(rows@))),
{
    let ghost a = entry_views(files@);
    let ghost b = entries_of(row_views(rows@));
    assert(a.len() == files@.len() && b.len() == rows@.len());
    if files.len() != rows.len() {
        return false;
    }
    let mut i: usize = 0;
    while i < files.len()
        invariant
            i <= files@.len(),
            files@.len() == rows@.len(),
            a == entry_views(files@),
            b == entries_of(row_views(rows@)),
            forall|j: int| 0 <= j < i ==> a[j] == #[trigger] b[j],
        decreases files.len() - i,
    {
        assert(a[i as int] == files@[i as int]@);
        assert(b[i as int] == (EntryView {
            path: rows@[i as int].path@,
            included: rows@[i as int].included,
        }));
        if !same(files[i].path.as_str(), rows[i].path.as_str()) || files[i].included
            != rows[i].included {
            assert(a[i as int] != b[i as int]);
            return false;
        }
        i += 1;
    }
    assert(a =~= b);
    true
}

fn same_vmaf_state(v: &VmafState, o: &VmafOpts) -> (r: bool)
    ensures
        r == (v@ == (VmafStateView {
            model: Some(o@.model),
            phone: Some(o@.phone),
            scale: Some(o@.scale),
            pooling: Some(o@.pooling),
            subsample: Some(o@.subsample),
            threads: Some(o@.threads),
        })),
{
    is_text(&v.model, o.model.as_str()) && is_flag(v.phone, o.phone) && is_flag(v.scale, o.scale)
        && is_text(&v.pooling, o.pooling.as_str()) && is_text(&v.subsample, o.subsample.as_str())
        && is_text(&v.threads, o.threads.as_str())
}

fn same_options(o: &OptionsState, c: &Config) -> (r: bool)
    ensures
        r == (o@ == (OptionsView {
            scaling: Some(c@.view.scale_method.label_text()),
            fps_mode: Some(c@.view.fps_mode),
            cell_stat: Some(c@.view.cell_stat),
            cell_precision: Some(dec(c@.view.cell_precision as nat)),
            ref_pixfmt: Some(c@.reference.pixfmt),
            plot_at_start: Some(c@.view.plot_at_start),
            plot_size: Some(c@.view.plot_size.label_text()),
            csv_export: Some(c@.export.csv_export),
            csv_dir: Some(c@.export.csv_dir),
            badframes_count: Some(c@.export.badframes_count),
            badframes_export_dir: Some(c@.export.badframes_export_dir),
            results_autosave: Some(c@.export.results_autosave),
            results_path: Some(c@.export.results_path),
        })),
{
    is_text(&o.scaling, c.view.scale_method.label()) && is_text(
        &o.fps_mode,
        c.view.fps_mode.as_str(),
    ) && is_text(&o.cell_stat, c.view.cell_stat.as_str()) && is_text(
        &o.cell_precision,
        dec_u64(c.view.cell_precision as u64).as_str(),
    ) && is_text(
        &o.ref_pixfmt,
        c.reference.pixfmt.as_str(),
    ) && is_flag(o.plot_at_start, c.view.plot_at_start) && is_text(
        &o.plot_size,
        c.view.plot_size.label(),
    ) && is_flag(o.csv_export, c.export.csv_export) && is_text(
        &o.csv_dir,
        c.export.csv_dir.as_str(),
    ) && is_text(&o.badframes_count, c.export.badframes_count.as_str()) && is_text(
        &o.badframes_export_dir,
        c.export.badframes_export_dir.as_str(),
    ) && is_flag(o.results_autosave, c.export.results_autosave) && is_text(
        &o.results_path,
        c.export.results_path.as_str(),
    )
}

/// Whether the session is not what was saved: it would be kept as another
/// state.
pub fn is_state_dirty(c: &Config, queue: &QueueModel, saved: &AppState) -> (r: bool)
    ensures
        r == (saved@ != snapshot_of(c@, queue@.rows)),
{
    if !(same(c.reference.path.as_str(), saved.ref_path.as_str()) && same(
        c.reference.skip.as_str(),
        saved.skip.as_str(),
    ) && same(c.reference.duration.as_str(), saved.duration.as_str())) {
        return true;
    }
    match &saved.files {
        Some(files) => {
            if !same_entries(files, &queue.rows) {
                return true;
            }
        },
        None => {
            return true;
        },
    }
    !(same_metrics(&saved.metrics, &c.metrics) && same_vmaf_state(&saved.vmaf, &c.vmaf)
        && same_options(&saved.options, c))
}

/// What is kept tells sessions apart: two are kept as one state exactly where
/// all their settings, their files and the flags of these are the same. Which
/// models there are is not kept.
pub proof fn lemma_snapshot_tells_all(
    c: ConfigView,
    rows: Seq<RowView>,
    d: ConfigView,
    others: Seq<RowView>,
)
    ensures
        snapshot_of(c, rows) == snapshot_of(d, others) <==> c == with_models(d, c.vmaf.models)
            && entries_of(rows) == entries_of(others),
{
    lemma_parse_dec(c.view.cell_precision as nat, u8::MAX as nat);
    lemma_parse_dec(d.view.cell_precision as nat, u8::MAX as nat);
    lemma_the_method(c.view.scale_method);
    lemma_the_method(d.view.scale_method);
    lemma_the_size(c.view.plot_size);
    lemma_the_size(d.view.plot_size);
}

// ---- Restoring settings ----

/// A saved text where there is one and it is allowed, else the present one.
pub open spec fn kept_text(saved: Option<Seq<char>>, allowed: bool, now: Seq<char>) -> Seq<char> {
    match saved {
        Some(s) => if allowed {
            s
        } else {
            now
        },
        None => now,
    }
}

pub open spec fn kept_flag(saved: Option<bool>, now: bool) -> bool {
    match saved {
        Some(b) => b,
        None => now,
    }
}

pub open spec fn among(saved: Option<Seq<char>>, offered: Seq<Seq<char>>) -> bool {
    saved is Some && offered.contains(saved->0)
}

/// The offered poolings.
pub open spec fn poolings() -> Seq<Seq<char>> {
    seq!["Mean"@, "Harmonic Mean"@]
}

/// The offered subsamplings.
pub open spec fn subsamples() -> Seq<Seq<char>> {
    seq!["1"@, "2"@, "3"@, "5"@, "10"@, "15"@]
}

pub fn poolings_of() -> (r: Vec<String>)
    ensures
        texts(r@) == poolings(),
{
    let mut r: Vec<String> = Vec::new();
    put(&mut r, "Mean");
    put(&mut r, "Harmonic Mean");
    assert(texts(r@) =~= poolings());
    r
}

pub fn subsamples_of() -> (r: Vec<String>)
    ensures
        texts(r@) == subsamples(),
{
    let mut r: Vec<String> = Vec::new();
    put(&mut r, "1");
    put(&mut r, "2");
    put(&mut r, "3");
    put(&mut r, "5");
    put(&mut r, "10");
    put(&mut r, "15");
    assert(texts(r@) =~= subsamples());
    r
}

/// The scaling method with a label.
pub open spec fn method_labelled(s: Seq<char>, m: ScaleMethod) -> bool {
    m.label_text() == s
}

pub open spec fn the_method(s: Seq<char>) -> ScaleMethod {
    choose|m: ScaleMethod| method_labelled(s, m)
}

proof fn lemma_the_method(m: ScaleMethod)
    ensures
        the_method(m.label_text()) == m,
        exists|n: ScaleMethod| method_labelled(m.label_text(), n),
{
    assert(method_labelled(m.label_text(), m));
    lemma_scale_labels_distinct(the_method(m.label_text()), m);
}

pub open spec fn kept_method(saved: Option<Seq<char>>, now: ScaleMethod) -> ScaleMethod {
    match saved {
        Some(s) => if exists|m: ScaleMethod| method_labelled(s, m) {
            the_method(s)
        } else {
            now
        },
        None => now,
    }
}

/// The picture size with a label.
pub open spec fn size_labelled(s: Seq<char>, m: PlotSize) -> bool {
    m.label_text() == s
}

pub open spec fn the_size(s: Seq<char>) -> PlotSize {
    choose|m: PlotSize| size_labelled(s, m)
}

proof fn lemma_the_size(m: PlotSize)
    ensures
        the_size(m.label_text()) == m,
        exists|n: PlotSize| size_labelled(m.label_text(), n),
{
    assert(size_labelled(m.label_text(), m));
    lemma_size_labels_distinct(the_size(m.label_text()), m);
}

pub open spec fn kept_size(saved: Option<Seq<char>>, now: PlotSize) -> PlotSize {
    match saved {
        Some(s) => if exists|m: PlotSize| size_labelled(s, m) {
            the_size(s)
        } else {
            now
        },
        None => now,
    }
}

pub open spec fn kept_precision(saved: Option<Seq<char>>, max: u8, now: u8) -> u8 {
    match saved {
        Some(s) => match parse_nat(s, u8::MAX as nat) {
            Some(p) => if p <= max {
                p as u8
            } else {
                now
            },
            None => now,
        },
        None => now,
    }
}

pub open spec fn kept_metrics(m: MetricsState, now: MetricToggles) -> MetricToggles {
    MetricToggles {
        psnr: kept_flag(m.psnr, now.psnr),
        ssim: kept_flag(m.ssim, now.ssim),
        vmaf: kept_flag(m.vmaf, now.vmaf),
        xpsnr: kept_flag(m.xpsnr, now.xpsnr),
        ssim2: kept_flag(m.ssim2, now.ssim2),
        butteraugli: kept_flag(m.butteraugli, now.butteraugli),
        cvvdp: kept_flag(m.cvvdp, now.cvvdp),
    }
}

/// The settings with a saved state applied: what it does not say, and what is
/// not offered, stays as it is.
pub open spec fn applied(c: ConfigView, s: StateView, menus: MenusView, max_precision: u8) -> ConfigView {
    ConfigView {
        reference: ReferenceView {
            path: s.ref_path,
            duration: s.duration,
            skip: s.skip,
            pixfmt: kept_text(
                s.options.ref_pixfmt,
                among(s.options.ref_pixfmt, menus.pixfmts),
                c.reference.pixfmt,
            ),
        },
        metrics: kept_metrics(s.metrics, c.metrics),
        vmaf: VmafOptsView {
            model: kept_text(s.vmaf.model, among(s.vmaf.model, c.vmaf.models), c.vmaf.model),
            phone: kept_flag(s.vmaf.phone, c.vmaf.phone),
            scale: kept_flag(s.vmaf.scale, c.vmaf.scale),
            pooling: kept_text(s.vmaf.pooling, among(s.vmaf.pooling, poolings()), c.vmaf.pooling),
            subsample: kept_text(
                s.vmaf.subsample,
                among(s.vmaf.subsample, subsamples()),
                c.vmaf.subsample,
            ),
            threads: kept_text(s.vmaf.threads, true, c.vmaf.threads),
            models: c.vmaf.models,
        },
        view: ViewOptsView {
            scale_method: kept_method(s.options.scaling, c.view.scale_method),
            fps_mode: kept_text(
                s.options.fps_mode,
                among(s.options.fps_mode, menus.fps_modes),
                c.view.fps_mode,
            ),
            cell_stat: kept_text(
                s.options.cell_stat,
                among(s.options.cell_stat, menus.cell_stats),
                c.view.cell_stat,
            ),
            cell_precision: kept_precision(
                s.options.cell_precision,
                max_precision,
                c.view.cell_precision,
            ),
            plot_size: kept_size(s.options.plot_size, c.view.plot_size),
            plot_at_start: kept_flag(s.options.plot_at_start, c.view.plot_at_start),
        },
        export: ExportView {
            csv_export: kept_flag(s.options.csv_export, c.export.csv_export),
            csv_dir: kept_text(s.options.csv_dir, true, c.export.csv_dir),
            results_autosave: kept_flag(s.options.results_autosave, c.export.results_autosave),
            results_path: kept_text(s.options.results_path, true, c.export.results_path),
            badframes_count: kept_text(
                s.options.badframes_count,
                among(s.options.badframes_count, count_labels()),
                c.export.badframes_count,
            ),
            badframes_export_dir: kept_text(
                s.options.badframes_export_dir,
                true,
                c.export.badframes_export_dir,
            ),
        },
    }
}

fn keep_any(saved: &Option<String>, now: &mut String)
    ensures
        final(now)@ == kept_text(opt_text(*saved), true, old(now)@),
{
    if let Some(s) = saved {
        *now = s.clone();
    }
}

fn keep_offered(saved: &Option<String>, offered: &Vec<String>, now: &mut String)
    ensures
        final(now)@ == kept_text(
            opt_text(*saved),
            among(opt_text(*saved), texts(offered@)),
            old(now)@,
        ),
{
    if let Some(s) = saved {
        let ok = has(offered, s.as_str());
        if ok {
            *now = s.clone();
        }
    }
}

fn keep_flag(saved: Option<bool>, now: bool) -> (r: bool)
    ensures
        r == kept_flag(saved, now),
{
    match saved {
        Some(b) => b,
        None => now,
    }
}

fn keep_method(saved: &Option<String>, now: ScaleMethod) -> (r: ScaleMethod)
    ensures
        r == kept_method(opt_text(*saved), now),
{
    match saved {
        Some(s) => match ScaleMethod::from_label(s.as_str()) {
            Some(m) => {
                proof {
                    lemma_the_method(m);
                }
                m
            },
            None => {
                assert forall|m: ScaleMethod| !method_labelled(s@, m) by {
                    assert(m.label_text() != s@);
                }
                now
            },
        },
        None => now,
    }
}

fn keep_size(saved: &Option<String>, now: PlotSize) -> (r: PlotSize)
    ensures
        r == kept_size(opt_text(*saved), now),
{
    match saved {
        Some(s) => match PlotSize::from_label(s.as_str()) {
            Some(m) => {
                proof {
                    lemma_the_size(m);
                }
                m
            },
            None => {
                assert forall|m: PlotSize| !size_labelled(s@, m) by {
                    assert(m.label_text() != s@);
                }
                now
            },
        },
        None => now,
    }
}

fn keep_precision(saved: &Option<String>, max: u8, now: u8) -> (r: u8)
    ensures
        r == kept_precision(opt_text(*saved), max, now),
{
    match saved {
        Some(s) => match parse_u8(s.as_str()) {
            Some(p) => if p <= max {
                p
            } else {
                now
            },
            None => now,
        },
        None => now,
    }
}

fn keep_metrics(m: &MetricsState, now: &mut MetricToggles)
    ensures
        *final(now) == kept_metrics(*m, *old(now)),
{
    now.psnr = keep_flag(m.psnr, now.psnr);
    now.ssim = keep_flag(m.ssim, now.ssim);
    now.vmaf = keep_flag(m.vmaf, now.vmaf);
    now.xpsnr = keep_flag(m.xpsnr, now.xpsnr);
    now.ssim2 = keep_flag(m.ssim2, now.ssim2);
    now.butteraugli = keep_flag(m.butteraugli, now.butteraugli);
    now.cvvdp = keep_flag(m.cvvdp, now.cvvdp);
}

impl Config {
    /// Applies a saved state to the settings: what it does not say, and what
    /// is not offered, stays as it is.
    pub fn apply(&mut self, s: &AppState, menus: &Menus, max_precision: u8)
        ensures
            final(self)@ == applied(old(self)@, s@, menus@, max_precision),
    {
        self.reference.path = s.ref_path.clone();
        self.reference.skip = s.skip.clone();
        self.reference.duration = s.duration.clone();
        keep_offered(&s.options.ref_pixfmt, &menus.pixfmts, &mut self.reference.pixfmt);
        keep_metrics(&s.metrics, &mut self.metrics);
        keep_offered(&s.vmaf.model, &self.vmaf.models, &mut self.vmaf.model);
        self.vmaf.phone = keep_flag(s.vmaf.phone, self.vmaf.phone);
        self.vmaf.scale = keep_flag(s.vmaf.scale, self.vmaf.scale);
        keep_offered(&s.vmaf.pooling, &poolings_of(), &mut self.vmaf.pooling);
        keep_offered(&s.vmaf.subsample, &subsamples_of(), &mut self.vmaf.subsample);
        keep_any(&s.vmaf.threads, &mut self.vmaf.threads);
        self.view.scale_method = keep_method(&s.options.scaling, self.view.scale_method);
        keep_offered(&s.options.fps_mode, &menus.fps_modes, &mut self.view.fps_mode);
        keep_offered(&s.options.cell_stat, &menus.cell_stats, &mut self.view.cell_stat);
        self.view.cell_precision = keep_precision(
            &s.options.cell_precision,
            max_precision,
            self.view.cell_precision,
        );
        self.view.plot_size = keep_size(&s.options.plot_size, self.view.plot_size);
        self.view.plot_at_start = keep_flag(s.options.plot_at_start, self.view.plot_at_start);
        self.export.csv_export = keep_flag(s.options.csv_export, self.export.csv_export);
        keep_any(&s.options.csv_dir, &mut self.export.csv_dir);
        keep_offered(
            &s.options.badframes_count,
            &count_labels_of(),
            &mut self.export.badframes_count,
        );
        keep_any(&s.options.badframes_export_dir, &mut self.export.badframes_export_dir);
        self.export.results_autosave = keep_flag(
            s.options.results_autosave,
            self.export.results_autosave,
        );
        keep_any(&s.options.results_path, &mut self.export.results_path);
    }
}

/// Settings that were chosen from what is offered, but for the model.
pub open spec fn offered_config(c: ConfigView, menus: MenusView, max_precision: u8) -> bool {
    &&& poolings().contains(c.vmaf.pooling)
    &&& subsamples().contains(c.vmaf.subsample)
    &&& menus.pixfmts.contains(c.reference.pixfmt)
    &&& menus.fps_modes.contains(c.view.fps_mode)
    &&& menus.cell_stats.contains(c.view.cell_stat)
    &&& c.view.cell_precision <= max_precision
    &&& count_labels().contains(c.export.badframes_count)
}

/// The settings `c` beside another list of models.
pub open spec fn with_models(c: ConfigView, models: Seq<Seq<char>>) -> ConfigView {
    ConfigView { vmaf: VmafOptsView { models, ..c.vmaf }, ..c }
}

/// Settings that were saved are restored as they were, whatever the settings
/// before, where their model is still there.
pub proof fn lemma_settings_round_trip(
    c: ConfigView,
    rows: Seq<RowView>,
    d: ConfigView,
    menus: MenusView,
    max_precision: u8,
)
    requires
        offered_config(c, menus, max_precision),
        d.vmaf.models.contains(c.vmaf.model),
    ensures
        applied(d, snapshot_of(c, rows), menus, max_precision) == with_models(c, d.vmaf.models),
{
    lemma_parse_dec(c.view.cell_precision as nat, u8::MAX as nat);
    lemma_the_method(c.view.scale_method);
    lemma_the_size(c.view.plot_size);
}

/// A state that says nothing changes nothing but the reference.
pub proof fn lemma_blank_state_keeps_settings(c: ConfigView, menus: MenusView, max_precision: u8)
    ensures
        applied(c, crate::state::blank_state(), menus, max_precision) == (ConfigView {
            reference: ReferenceView {
                path: Seq::empty(),
                duration: Seq::empty(),
                skip: Seq::empty(),
                pixfmt: c.reference.pixfmt,
            },
            ..c
        }),
{
}

// ---- Restoring the queue ----

/// The entries whose files are still there.
pub open spec fn live_entries(v: Seq<EntryView>, is_file: Seq<bool>) -> Seq<EntryView>
    decreases v.len(),
{
    if v.len() == 0 {
        v
    } else {
        let head = live_entries(v.drop_last(), is_file);
        if is_file[v.len() - 1] {
            head.push(v.last())
        } else {
            head
        }
    }
}

fn live_of(v: &Vec<FileEntry>, is_file: &Vec<bool>) -> (r: Vec<FileEntry>)
    requires
        is_file@.len() == v@.len(),
    ensures
        entry_views(r@) == live_entries(entry_views(v@), is_file@),
        r@.len() <= v@.len(),
{
    let ghost all = entry_views(v@);
    let mut r: Vec<FileEntry> = Vec::new();
    let mut i: usize = 0;
    assert(all.take(0) =~= Seq::<EntryView>::empty());
    assert(entry_views(r@) =~= Seq::<EntryView>::empty());
    while i < v.len()
        invariant
            i <= v@.len(),
            is_file@.len() == v@.len(),
            all == entry_views(v@),
            r@.len() <= i,
            entry_views(r@) == live_entries(all.take(i as int), is_file@),
        decreases v.len() - i,
    {
        let ghost before = r@;
        assert(all.take(i + 1).drop_last() =~= all.take(i as int));
        assert(all.take(i + 1).last() == v@[i as int]@);
        if is_file[i] {
            r.push(FileEntry { path: v[i].path.clone(), included: v[i].included });
            assert(entry_views(r@) =~= entry_views(before).push(v@[i as int]@));
        }
        i += 1;
    }
    assert(all.take(i as int) =~= all);
    r
}

pub open spec fn entry_paths(v: Seq<EntryView>) -> Seq<Seq<char>> {
    v.map_values(|e: EntryView| e.path)
}

/// The rows with the flag of one file set.
pub open spec fn flag_set(rows: Seq<RowView>, key: Seq<char>, v: bool) -> Seq<RowView> {
    match keyed(rows, key, 0) {
        Some(i) => rows.update(i, RowView { included: v, ..rows[i] }),
        None => rows,
    }
}

/// The rows with the flags of some entries.
pub open spec fn flagged(
    rows: Seq<RowView>,
    entries: Seq<EntryView>,
    cwd: Option<Seq<char>>,
    windows: bool,
) -> Seq<RowView>
    decreases entries.len(),
{
    if entries.len() == 0 {
        rows
    } else {
        flag_set(
            flagged(rows, entries.drop_last(), cwd, windows),
            key_of(entries.last().path, cwd, windows),
            entries.last().included,
        )
    }
}

/// A queue with entries restored.
pub open spec fn restored(
    q: QueueView,
    entries: Seq<EntryView>,
    cwd: Option<Seq<char>>,
    windows: bool,
    sep: Seq<char>,
) -> QueueView {
    let p = with_paths(q, entry_paths(entries), cwd, windows, sep);
    QueueView { rows: flagged(p.rows, entries, cwd, windows), ..p }
}

/// The questions that restored entries call for.
pub open spec fn restored_jobs(
    q: QueueView,
    entries: Seq<EntryView>,
    cwd: Option<Seq<char>>,
    windows: bool,
) -> Seq<JobView> {
    add_all(adding(q), with_keys(entry_paths(entries), cwd, windows)).jobs
}

proof fn lemma_flag_set_sound(q: QueueView, key: Seq<char>, v: bool)
    requires
        queue_ok(q),
    ensures
        queue_ok(QueueView { rows: flag_set(q.rows, key, v), ..q }),
{
    let p = QueueView { rows: flag_set(q.rows, key, v), ..q };
    lemma_keyed(q.rows, key, 0);
    assert forall|j: int| 0 <= j < p.rows.len() implies (#[trigger] p.rows[j]).key
        == q.rows[j].key && p.rows[j].color_idx == q.rows[j].color_idx && row_ok(p.rows[j]) by {
        assert(row_ok(q.rows[j]));
        lemma_same_cells_ok(q.rows[j], p.rows[j]);
    }
    lemma_sound_by_rows(q, p);
}

impl QueueModel {
    /// Restores saved files with their flags, and tells which to probe.
    pub fn restore(
        &mut self,
        entries: &Vec<FileEntry>,
        cwd: &Option<String>,
        windows: bool,
        sep: &str,
    ) -> (jobs: Vec<ProbeJob>)
        requires
            old(self).next_color_idx + entries@.len() <= usize::MAX,
        ensures
            final(self)@ == restored(
                old(self)@,
                entry_views(entries@),
                opt_text(*cwd),
                windows,
                sep@,
            ),
            job_views(jobs@) == restored_jobs(
                old(self)@,
                entry_views(entries@),
                opt_text(*cwd),
                windows,
            ),
            queue_ok(old(self)@) ==> queue_ok(final(self)@),
    {
        let ghost all = entry_views(entries@);
        let ghost q0 = self@;
        let mut paths: Vec<String> = Vec::new();
        let mut i: usize = 0;
        assert(texts(paths@) =~= entry_paths(all).take(0));
        while i < entries.len()
            invariant
                i <= entries@.len(),
                all == entry_views(entries@),
                paths@.len() == i,
                texts(paths@) == entry_paths(all).take(i as int),
            decreases entries.len() - i,
        {
            put(&mut paths, entries[i].path.as_str());
            assert(entry_paths(all)[i as int] == entries@[i as int].path@);
            i += 1;
            assert(texts(paths@) =~= entry_paths(all).take(i as int));
        }
        assert(entry_paths(all).take(i as int) =~= entry_paths(all));
        let jobs = self.add_queue_files(&paths, cwd, windows, sep);
        let ghost p = self@;
        let mut k: usize = 0;
        assert(all.take(0) =~= Seq::<EntryView>::empty());
        while k < entries.len()
            invariant
                k <= entries@.len(),
                all == entry_views(entries@),
                self@ == (QueueView {
                    rows: flagged(p.rows, all.take(k as int), opt_text(*cwd), windows),
                    ..p
                }),
                queue_ok(q0) ==> queue_ok(self@),
            decreases entries.len() - k,
        {
            assert(all.take(k + 1).drop_last() =~= all.take(k as int));
            assert(all.take(k + 1).last() == entries@[k as int]@);
            let key = norm_key(entries[k].path.as_str(), cwd, windows);
            let ghost before = self@;
            if let Some(at) = find_row(&self.rows, key.as_str()) {
                let row = &mut self.rows[at];
                row.included = entries[k].included;
                assert(self@.rows =~= flag_set(before.rows, key@, entries@[k as int].included));
            }
            proof {
                if queue_ok(before) {
                    lemma_flag_set_sound(before, key@, entries@[k as int].included);
                }
            }
            k += 1;
        }
        assert(all.take(k as int) =~= all);
        jobs
    }
}

proof fn lemma_add_distinct(a: Adding, files: Seq<KeyedView>)
    requires
        a.rows.len() == 0,
        forall|i: int, j: int|
            0 <= i < j < files.len() ==> (#[trigger] files[i]).key != (#[trigger] files[j]).key,
    ensures
        ({
            let rows = add_all(a, files).rows;
            &&& rows.len() == files.len()
            &&& forall|i: int|
                0 <= i < files.len() ==> (#[trigger] rows[i]).path == files[i].path && rows[i].key
                    == files[i].key
        }),
    decreases files.len(),
{
    if files.len() > 0 {
        let head = files.drop_last();
        lemma_add_distinct(a, head);
        let rows = add_all(a, head).rows;
        let f = files.last();
        lemma_keyed(rows, f.key, 0);
        if keyed(rows, f.key, 0) is Some {
            let i = keyed(rows, f.key, 0)->0;
            assert(rows[i].key == head[i].key);
            assert(files[i].key != files[files.len() - 1].key);
        }
    }
}

proof fn lemma_flagged_in_place(
    rows: Seq<RowView>,
    entries: Seq<EntryView>,
    cwd: Option<Seq<char>>,
    windows: bool,
)
    requires
        entries.len() <= rows.len(),
        forall|i: int, j: int|
            0 <= i < j < rows.len() ==> (#[trigger] rows[i]).key != (#[trigger] rows[j]).key,
        forall|i: int|
            0 <= i < entries.len() ==> key_of((#[trigger] entries[i]).path, cwd, windows)
                == rows[i].key,
    ensures
        ({
            let r = flagged(rows, entries, cwd, windows);
            &&& r.len() == rows.len()
            &&& forall|i: int|
                0 <= i < rows.len() ==> (#[trigger] r[i]).key == rows[i].key && r[i].path
                    == rows[i].path
            &&& forall|i: int|
                0 <= i < entries.len() ==> (#[trigger] r[i]).included == entries[i].included
        }),
    decreases entries.len(),
{
    if entries.len() > 0 {
        let head = entries.drop_last();
        assert forall|i: int| 0 <= i < head.len() implies key_of(
            (#[trigger] head[i]).path,
            cwd,
            windows,
        ) == rows[i].key by {
            assert(head[i] == entries[i]);
        }
        lemma_flagged_in_place(rows, head, cwd, windows);
        let h = flagged(rows, head, cwd, windows);
        let last = entries.len() - 1;
        let key = key_of(entries[last].path, cwd, windows);
        lemma_keyed(h, key, 0);
        assert(h[last].key == rows[last].key);
        if keyed(h, key, 0) is Some {
            let k = keyed(h, key, 0)->0;
            assert(h[k].key == rows[k].key);
            if k != last {
                if k < last {
                    assert(rows[k].key != rows[last].key);
                } else {
                    assert(rows[last].key != rows[k].key);
                }
            }
        }
        let r = flagged(rows, entries, cwd, windows);
        assert forall|i: int| 0 <= i < entries.len() implies (#[trigger] r[i]).included
            == entries[i].included by {
            if i < last {
                assert(h[i].included == head[i].included);
            }
        }
    }
}

/// Whether the files of some rows are all different, as seen from a folder.
pub open spec fn all_distinct(rows: Seq<RowView>, cwd: Option<Seq<char>>, windows: bool) -> bool {
    forall|i: int, j: int|
        0 <= i < j < rows.len() ==> key_of((#[trigger] rows[i]).path, cwd, windows) != key_of(
            (#[trigger] rows[j]).path,
            cwd,
            windows,
        )
}

/// The files of a queue are all different, as seen from the folder in which
/// they were queued.
pub proof fn lemma_queued_files_are_distinct(
    q: QueueView,
    cwd: Option<Seq<char>>,
    windows: bool,
)
    requires
        queue_ok(q),
        forall|i: int|
            0 <= i < q.rows.len() ==> (#[trigger] q.rows[i]).key == key_of(
                q.rows[i].path,
                cwd,
                windows,
            ),
    ensures
        all_distinct(q.rows, cwd, windows),
{
    assert forall|i: int, j: int| 0 <= i < j < q.rows.len() implies key_of(
        (#[trigger] q.rows[i]).path,
        cwd,
        windows,
    ) != key_of((#[trigger] q.rows[j]).path, cwd, windows) by {
        assert(q.rows[i].key != q.rows[j].key);
    }
}

/// A queue that was saved is restored into an empty one with the same files in
/// the same order, each with its flag, where its files are all different.
pub proof fn lemma_queue_round_trip(
    rows: Seq<RowView>,
    q: QueueView,
    cwd: Option<Seq<char>>,
    windows: bool,
    sep: Seq<char>,
)
    requires
        q.rows.len() == 0,
        all_distinct(rows, cwd, windows),
    ensures
        entries_of(restored(q, entries_of(rows), cwd, windows, sep).rows) == entries_of(rows),
{
    let entries = entries_of(rows);
    let paths = entry_paths(entries);
    let files = with_keys(paths, cwd, windows);
    assert forall|i: int, j: int| 0 <= i < j < files.len() implies (#[trigger] files[i]).key != (
    #[trigger] files[j]).key by {
        assert(files[i].key == key_of(rows[i].path, cwd, windows));
        assert(files[j].key == key_of(rows[j].path, cwd, windows));
    }
    lemma_add_distinct(adding(q), files);
    let added = with_files(q, files);
    let p = with_paths(q, paths, cwd, windows, sep);
    assert forall|i: int| 0 <= i < p.rows.len() implies (#[trigger] p.rows[i]).path
        == rows[i].path && p.rows[i].key == files[i].key by {
        assert(added.rows[i].path == files[i].path);
    }
    assert forall|i: int, j: int| 0 <= i < j < p.rows.len() implies (#[trigger] p.rows[i]).key != (
    #[trigger] p.rows[j]).key by {
        assert(files[i].key != files[j].key);
    }
    assert forall|i: int| 0 <= i < entries.len() implies key_of(
        (#[trigger] entries[i]).path,
        cwd,
        windows,
    ) == p.rows[i].key by {
        assert(p.rows[i].key == files[i].key);
    }
    lemma_flagged_in_place(p.rows, entries, cwd, windows);
    let r = restored(q, entries, cwd, windows, sep);
    assert forall|i: int| 0 <= i < entries.len() implies entries_of(r.rows)[i] == #[trigger] entries[i] by {
        assert(r.rows[i].path == p.rows[i].path);
        assert(r.rows[i].included == entries[i].included);
    }
    assert(entries_of(r.rows) =~= entries);
}

proof fn lemma_all_live(v: Seq<EntryView>, is_file: Seq<bool>)
    requires
        v.len() <= is_file.len(),
        forall|i: int| 0 <= i < v.len() ==> #[trigger] is_file[i],
    ensures
        live_entries(v, is_file) == v,
    decreases v.len(),
{
    if v.len() > 0 {
        lemma_all_live(v.drop_last(), is_file);
        assert(v.drop_last().push(v.last()) =~= v);
    }
}

/// The queue after a state was applied.
pub open spec fn settled_queue(
    q: QueueView,
    s: StateView,
    is_file: Seq<bool>,
    cwd: Option<Seq<char>>,
    windows: bool,
    sep: Seq<char>,
) -> QueueView {
    match s.files {
        Some(f) => restored(q, live_entries(f, is_file), cwd, windows, sep),
        None => q,
    }
}

/// The questions that applying a state calls for.
pub open spec fn settled_jobs(
    q: QueueView,
    s: StateView,
    is_file: Seq<bool>,
    cwd: Option<Seq<char>>,
    windows: bool,
) -> Seq<JobView> {
    match s.files {
        Some(f) => restored_jobs(q, live_entries(f, is_file), cwd, windows),
        None => Seq::empty(),
    }
}

/// A session that was saved comes back whole when it is applied to one with an
/// empty queue: the reference and its trims, the files in their order with
/// their flags, the ticks, and all options. For that the settings were chosen
/// from what is offered, the model is still there, the programs can honour
/// every tick, and the files still exist and are all different as seen from
/// the folder in which they are restored.
pub proof fn lemma_state_round_trip(
    c: ConfigView,
    rows: Seq<RowView>,
    d: ConfigView,
    q: QueueView,
    b: BinariesView,
    menus: MenusView,
    max_precision: u8,
    is_file: Seq<bool>,
    cwd: Option<Seq<char>>,
    windows: bool,
    sep: Seq<char>,
)
    requires
        offered_config(c, menus, max_precision),
        d.vmaf.models.contains(c.vmaf.model),
        honoured(c.metrics, b) == c.metrics,
        q.rows.len() == 0,
        is_file.len() == rows.len(),
        forall|i: int| 0 <= i < rows.len() ==> #[trigger] is_file[i],
        all_distinct(rows, cwd, windows),
    ensures
        ({
            let s = snapshot_of(c, rows);
            let config = settled_config(d, s, b, menus, max_precision);
            let queue = settled_queue(q, s, is_file, cwd, windows, sep);
            &&& config == with_models(c, d.vmaf.models)
            &&& snapshot_of(config, queue.rows) == s
        }),
{
    lemma_settings_round_trip(c, rows, ticks_honoured(d, b), menus, max_precision);
    lemma_all_live(entries_of(rows), is_file);
    lemma_queue_round_trip(rows, q, cwd, windows, sep);
}

/// Applies a saved state, or none: ticks that the programs cannot honour are
/// cleared either way, and files that are gone are not queued. Tells which
/// files to probe.
pub fn apply_state(
    config: &mut Config,
    queue: &mut QueueModel,
    b: &Binaries,
    menus: &Menus,
    max_precision: u8,
    loaded: &Option<AppState>,
    is_file: &Vec<bool>,
    cwd: &Option<String>,
    windows: bool,
    sep: &str,
) -> (jobs: Vec<ProbeJob>)
    requires
        loaded matches Some(s) ==> (s.files matches Some(f) ==> {
            &&& is_file@.len() == f@.len()
            &&& old(queue).next_color_idx + f@.len() <= usize::MAX
        }),
    ensures
        final(config)@ == (match *loaded {
            Some(s) => settled_config(old(config)@, s@, b@, menus@, max_precision),
            None => ticks_honoured(old(config)@, b@),
        }),
        final(queue)@ == (match *loaded {
            Some(s) => settled_queue(old(queue)@, s@, is_file@, opt_text(*cwd), windows, sep@),
            None => old(queue)@,
        }),
        job_views(jobs@) == (match *loaded {
            Some(s) => settled_jobs(old(queue)@, s@, is_file@, opt_text(*cwd), windows),
            None => Seq::empty(),
        }),
        queue_ok(old(queue)@) ==> queue_ok(final(queue)@),
{
    untick_unsupported_metrics(&mut config.metrics, b);
    match loaded {
        Some(s) => {
            let jobs = match &s.files {
                Some(files) => {
                    let live = live_of(files, is_file);
                    queue.restore(&live, cwd, windows, sep)
                },
                None => Vec::new(),
            };
            config.apply(s, menus, max_precision);
            untick_unsupported_metrics(&mut config.metrics, b);
            jobs
        },
        None => Vec::new(),
    }
}

/// The settings with only the ticks that the programs can honour.
pub open spec fn ticks_honoured(c: ConfigView, b: BinariesView) -> ConfigView {
    ConfigView { metrics: honoured(c.metrics, b), ..c }
}

/// The settings after a state was applied.
pub open spec fn settled_config(
    c: ConfigView,
    s: StateView,
    b: BinariesView,
    menus: MenusView,
    max_precision: u8,
) -> ConfigView {
    ticks_honoured(applied(ticks_honoured(c, b), s, menus, max_precision), b)
}

// ---- When to save ----

/// What is known of saving.
#[derive(Debug)]
pub struct SaveState {
    /// When the first change was seen that is not saved.
    pub pending_since: Option<Num>,
    /// Whether trouble was told; it is told once.
    pub fallback_toasted: bool,
}

/// What a look at the session comes to.
#[derive(Debug, Clone, Copy, PartialEq, Eq, Structural)]
pub enum SaveStep {
    /// Nothing to save.
    Clean,
    /// A change: look again when it has settled.
    Arm,
    Save,
    /// Look again when the time is up.
    Wait,
}

impl SaveState {
    /// A look at the session; `is_over` tells whether the time since the first
    /// change is up.
    pub fn tick(&mut self, dirty: bool, now: Num, is_over: bool) -> (r: SaveStep)
        ensures
            r == (if !dirty {
                SaveStep::Clean
            } else if old(self).pending_since is None {
                SaveStep::Arm
            } else if is_over {
                SaveStep::Save
            } else {
                SaveStep::Wait
            }),
            *final(self) == (SaveState {
                pending_since: match r {
                    SaveStep::Clean => None,
                    SaveStep::Arm => Some(now),
                    _ => old(self).pending_since,
                },
                ..*old(self)
            }),
    {
        if !dirty {
            self.pending_since = None;
            return SaveStep::Clean;
        }
        if self.pending_since.is_none() {
            self.pending_since = Some(now);
            return SaveStep::Arm;
        }
        if is_over {
            SaveStep::Save
        } else {
            SaveStep::Wait
        }
    }

    /// Takes how saving went: where the state was put, if anywhere. What went
    /// nowhere is tried again; trouble is told once.
    pub fn saved(&mut self, path: &Option<String>, primary: &str, now: Num) -> (r: Option<Toast>)
        ensures
            opt_toast(r) == save_note(opt_text(*path), primary@, old(self).fallback_toasted),
            *final(self) == (SaveState {
                pending_since: if *path is Some {
                    None
                } else {
                    Some(now)
                },
                fallback_toasted: old(self).fallback_toasted || r is Some,
            }),
    {
        match path {
            Some(p) => {
                self.pending_since = None;
                if !same(p.as_str(), primary) && !self.fallback_toasted {
                    self.fallback_toasted = true;
                    let mut s = "App folder not writable — state saves to ".to_owned();
                    s.append(p.as_str());
                    Some(warning(s.as_str()))
                } else {
                    None
                }
            },
            None => {
                self.pending_since = Some(now);
                if !self.fallback_toasted {
                    self.fallback_toasted = true;
                    Some(warning("State save failed everywhere — retrying"))
                } else {
                    None
                }
            },
        }
    }
}

/// The note on saving: that the state went elsewhere, or nowhere.
pub open spec fn save_note(path: Option<Seq<char>>, primary: Seq<char>, toasted: bool) -> Option<
    ToastView,
> {
    match path {
        Some(p) => if p != primary && !toasted {
            Some(
                ToastView {
                    text: "App folder not writable — state saves to "@ + p,
                    kind: ToastKind::Warning,
                },
            )
        } else {
            None
        },
        None => if !toasted {
            Some(
                ToastView {
                    text: "State save failed everywhere — retrying"@,
                    kind: ToastKind::Warning,
                },
            )
        } else {
            None
        },
    }
}

/// Trouble with saving is told at most once.
pub proof fn lemma_trouble_is_told_once(
    path: Option<Seq<char>>,
    primary: Seq<char>,
)
    ensures
        save_note(path, primary, true) is None,
{
}

// ---- What is kept, and what comes of it ----

/// Each setting is kept under its own name.
pub proof fn lemma_settings_are_kept_by_name(c: ConfigView, rows: Seq<RowView>)
    ensures
        ({
            let s = snapshot_of(c, rows);
            &&& s.ref_path == c.reference.path && s.skip == c.reference.skip && s.duration
                == c.reference.duration
            &&& s.metrics.psnr == Some(c.metrics.psnr) && s.metrics.ssim == Some(c.metrics.ssim)
            &&& s.metrics.vmaf == Some(c.metrics.vmaf) && s.metrics.xpsnr == Some(c.metrics.xpsnr)
            &&& s.metrics.ssim2 == Some(c.metrics.ssim2) && s.metrics.butteraugli == Some(
                c.metrics.butteraugli,
            ) && s.metrics.cvvdp == Some(c.metrics.cvvdp)
            &&& s.vmaf.model == Some(c.vmaf.model) && s.vmaf.pooling == Some(c.vmaf.pooling)
            &&& s.vmaf.subsample == Some(c.vmaf.subsample) && s.vmaf.threads == Some(c.vmaf.threads)
            &&& s.vmaf.phone == Some(c.vmaf.phone) && s.vmaf.scale == Some(c.vmaf.scale)
            &&& s.options.fps_mode == Some(c.view.fps_mode) && s.options.cell_stat == Some(
                c.view.cell_stat,
            ) && s.options.ref_pixfmt == Some(c.reference.pixfmt)
            &&& s.options.scaling == Some(c.view.scale_method.label_text()) && s.options.plot_size
                == Some(c.view.plot_size.label_text())
            &&& s.options.cell_precision == Some(dec(c.view.cell_precision as nat))
            &&& s.options.plot_at_start == Some(c.view.plot_at_start) && s.options.csv_export == Some(
                c.export.csv_export,
            ) && s.options.results_autosave == Some(c.export.results_autosave)
            &&& s.options.csv_dir == Some(c.export.csv_dir) && s.options.results_path == Some(
                c.export.results_path,
            ) && s.options.badframes_export_dir == Some(c.export.badframes_export_dir)
            &&& s.options.badframes_count == Some(c.export.badframes_count)
            &&& s.files is Some && s.files->0.len() == rows.len()
            &&& forall|i: int|
                0 <= i < rows.len() ==> (#[trigger] s.files->0[i]).path == rows[i].path
                    && s.files->0[i].included == rows[i].included
        }),
{
}

/// A saved choice counts where it is offered, and else the present one stays.
pub proof fn lemma_only_offered_choices_count(
    c: ConfigView,
    s: StateView,
    menus: MenusView,
    max_precision: u8,
)
    ensures
        ({
            let a = applied(c, s, menus, max_precision);
            let pooling = s.vmaf.pooling;
            let step = s.vmaf.subsample;
            &&& a.vmaf.pooling == (if pooling is Some && (pooling->0 == "Mean"@ || pooling->0
                == "Harmonic Mean"@) {
                pooling->0
            } else {
                c.vmaf.pooling
            })
            &&& a.vmaf.subsample == (if step is Some && (step->0 == "1"@ || step->0 == "2"@ || step->0
                == "3"@ || step->0 == "5"@ || step->0 == "10"@ || step->0 == "15"@) {
                step->0
            } else {
                c.vmaf.subsample
            })
            &&& a.vmaf.model == (if s.vmaf.model is Some && c.vmaf.models.contains(s.vmaf.model->0) {
                s.vmaf.model->0
            } else {
                c.vmaf.model
            })
            &&& a.reference.pixfmt == (if s.options.ref_pixfmt is Some && menus.pixfmts.contains(
                s.options.ref_pixfmt->0,
            ) {
                s.options.ref_pixfmt->0
            } else {
                c.reference.pixfmt
            })
            &&& a.view.fps_mode == (if s.options.fps_mode is Some && menus.fps_modes.contains(
                s.options.fps_mode->0,
            ) {
                s.options.fps_mode->0
            } else {
                c.view.fps_mode
            })
            &&& a.view.cell_stat == (if s.options.cell_stat is Some && menus.cell_stats.contains(
                s.options.cell_stat->0,
            ) {
                s.options.cell_stat->0
            } else {
                c.view.cell_stat
            })
            &&& a.vmaf.models == c.vmaf.models
        }),
{
    let p = poolings();
    assert(p[0] == "Mean"@ && p[1] == "Harmonic Mean"@);
    let q = subsamples();
    assert(q[0] == "1"@ && q[1] == "2"@ && q[2] == "3"@ && q[3] == "5"@ && q[4] == "10"@ && q[5]
        == "15"@);
}

/// Saved free texts and flags count as they are, and what is not saved stays.
pub proof fn lemma_saved_texts_and_flags_count(
    c: ConfigView,
    s: StateView,
    menus: MenusView,
    max_precision: u8,
)
    ensures
        ({
            let a = applied(c, s, menus, max_precision);
            &&& a.reference.path == s.ref_path && a.reference.skip == s.skip && a.reference.duration
                == s.duration
            &&& s.vmaf.threads is Some ==> a.vmaf.threads == s.vmaf.threads->0
            &&& s.vmaf.threads is None ==> a.vmaf.threads == c.vmaf.threads
            &&& s.options.csv_dir is Some ==> a.export.csv_dir == s.options.csv_dir->0
            &&& s.options.csv_dir is None ==> a.export.csv_dir == c.export.csv_dir
            &&& s.options.results_path is Some ==> a.export.results_path == s.options.results_path->0
            &&& s.options.results_path is None ==> a.export.results_path == c.export.results_path
            &&& s.options.badframes_export_dir is Some ==> a.export.badframes_export_dir
                == s.options.badframes_export_dir->0
            &&& s.options.badframes_export_dir is None ==> a.export.badframes_export_dir
                == c.export.badframes_export_dir
            &&& s.vmaf.phone is Some ==> a.vmaf.phone == s.vmaf.phone->0
            &&& s.vmaf.phone is None ==> a.vmaf.phone == c.vmaf.phone
            &&& s.vmaf.scale is Some ==> a.vmaf.scale == s.vmaf.scale->0
            &&& s.vmaf.scale is None ==> a.vmaf.scale == c.vmaf.scale
            &&& s.options.plot_at_start is Some ==> a.view.plot_at_start == s.options.plot_at_start->0
            &&& s.options.csv_export is Some ==> a.export.csv_export == s.options.csv_export->0
            &&& s.options.results_autosave is Some ==> a.export.results_autosave
                == s.options.results_autosave->0
            &&& s.metrics.psnr is Some ==> a.metrics.psnr == s.metrics.psnr->0
            &&& s.metrics.ssim is Some ==> a.metrics.ssim == s.metrics.ssim->0
            &&& s.metrics.vmaf is Some ==> a.metrics.vmaf == s.metrics.vmaf->0
            &&& s.metrics.xpsnr is Some ==> a.metrics.xpsnr == s.metrics.xpsnr->0
            &&& s.metrics.ssim2 is Some ==> a.metrics.ssim2 == s.metrics.ssim2->0
            &&& s.metrics.butteraugli is Some ==> a.metrics.butteraugli == s.metrics.butteraugli->0
            &&& s.metrics.cvvdp is Some ==> a.metrics.cvvdp == s.metrics.cvvdp->0
        }),
{
}

/// A saved precision counts where it can be read and is not too great, and a
/// label where it is that of a method or a size.
pub proof fn lemma_readable_choices_count(
    saved: Seq<char>,
    max: u8,
    now: u8,
    method: ScaleMethod,
    size: PlotSize,
    other_method: ScaleMethod,
    other_size: PlotSize,
)
    ensures
        ({
            let n = parse_nat(saved, u8::MAX as nat);
            &&& n is Some && n->0 <= max ==> kept_precision(Some(saved), max, now) == n->0
            &&& n is None || n->0 > max ==> kept_precision(Some(saved), max, now) == now
        }),
        kept_precision(None, max, now) == now,
        kept_method(Some(method.label_text()), other_method) == method,
        kept_method(None, other_method) == other_method,
        (forall|m: ScaleMethod| #[trigger] m.label_text() != saved) ==> kept_method(
            Some(saved),
            other_method,
        ) == other_method,
        kept_size(Some(size.label_text()), other_size) == size,
        kept_size(None, other_size) == other_size,
        (forall|z: PlotSize| #[trigger] z.label_text() != saved) ==> kept_size(Some(saved), other_size)
            == other_size,
{
    lemma_the_method(method);
    lemma_the_size(size);
    if exists|m: ScaleMethod| method_labelled(saved, m) {
        let m = choose|m: ScaleMethod| method_labelled(saved, m);
        assert(m.label_text() == saved);
    }
    if exists|m: PlotSize| size_labelled(saved, m) {
        let m = choose|m: PlotSize| size_labelled(saved, m);
        assert(m.label_text() == saved);
    }
}

/// Of saved files those that are still there are queued, in their order.
pub proof fn lemma_missing_files_are_left_out(v: Seq<EntryView>, e: EntryView, is_file: Seq<bool>)
    requires
        v.len() < is_file.len(),
    ensures
        is_file[v.len() as int] ==> live_entries(v.push(e), is_file) == live_entries(v, is_file).push(e),
        !is_file[v.len() as int] ==> live_entries(v.push(e), is_file) == live_entries(v, is_file),
{
    assert(v.push(e).drop_last() =~= v);
}

/// A flag is set on the file with the key, and on no other.
pub proof fn lemma_flag_goes_to_its_file(rows: Seq<RowView>, key: Seq<char>, v: bool, i: int)
    requires
        0 <= i < rows.len(),
        forall|a: int, b: int|
            0 <= a < b < rows.len() ==> (#[trigger] rows[a]).key != (#[trigger] rows[b]).key,
    ensures
        flag_set(rows, key, v).len() == rows.len(),
        rows[i].key == key ==> flag_set(rows, key, v)[i].included == v,
        rows[i].key != key ==> flag_set(rows, key, v)[i] == rows[i],
        flag_set(rows, key, v)[i].path == rows[i].path && flag_set(rows, key, v)[i].cells
            == rows[i].cells,
{
    lemma_keyed(rows, key, 0);
    match keyed(rows, key, 0) {
        Some(j) => {
            if j < i {
                assert(rows[j].key != rows[i].key);
            } else if i < j {
                assert(rows[i].key != rows[j].key);
            }
        },
        None => {},
    }
}

/// A save that went where it should is not remarked on. One that went elsewhere
/// or nowhere is, unless it was before.
pub proof fn lemma_saving_trouble_is_told(path: Option<Seq<char>>, primary: Seq<char>, toasted: bool)
    ensures
        save_note(path, primary, toasted) is Some <==> path != Some(primary) && !toasted,
        save_note(path, primary, toasted) is Some ==> save_note(path, primary, toasted)->0.kind is Warning,
{
}

} // verus!
