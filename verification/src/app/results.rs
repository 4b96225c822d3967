//! The results of a queue as rows of the results file.
use vstd::prelude::*;
use vstd::string::StringExecFns;
use crate::app::queue::{row_views, QueueRow, RowView};
use crate::app::run::{RunRuntime, RunView};
use crate::app::toast::{error, info, plural, plural_of, Toast, ToastKind, ToastView};
use crate::metrics::cell::{finished, CellView, MetricCell, StampView};
use crate::metrics::ffmpeg::{all_kinds, MetricKind};
use crate::metrics::results::{
    block_views, option_parts, options_for, row, row_cols, Block, BlockView, ResultsRow,
};
use crate::metrics::vmaf::Pooling;
use crate::outside::opt_text;
use crate::probe::{opt_media, results_media_text, results_text, MediaInfo, MediaView};
use crate::text::{blank, copy_all, dec, dec_i64, dec_int, dec_usize, is_blank, join, put, texts};

verus! {

/// The numbers of one metric of one file, as printed.
#[derive(Debug)]
pub struct Printed {
    pub avg: String,
    /// Mean, harmonic mean, least, greatest, spread, and four percentiles.
    pub stats: Vec<String>,
    pub skip: String,
    pub clip: String,
}

pub struct PrintedView {
    pub avg: Seq<char>,
    pub stats: Seq<Seq<char>>,
    pub skip: Seq<char>,
    pub clip: Seq<char>,
}

impl View for Printed {
    type V = PrintedView;

    open spec fn view(&self) -> PrintedView {
        PrintedView {
            avg: self.avg@,
            stats: texts(self.stats@),
            skip: self.skip@,
            clip: self.clip@,
        }
    }
}

pub open spec fn printed_views(v: Seq<Printed>) -> Seq<PrintedView> {
    v.map_values(|p: Printed| p@)
}

/// The model and the pooling of a VMAF run.
pub open spec fn vmaf_told(kind: MetricKind, s: StampView) -> Option<(Seq<char>, Pooling)> {
    if kind is Vmaf && s.vmaf_cfg is Some {
        Some((s.vmaf_cfg->0.model, s.vmaf_cfg->0.pooling))
    } else {
        None
    }
}

/// One metric of a file; one that is not computed is empty.
pub open spec fn block_of(r: RowView, kind: MetricKind, p: PrintedView) -> BlockView {
    match r.cell(kind) {
        CellView::Done { stamp, .. } => BlockView {
            avg: Some(p.avg),
            stats: if r.cache(kind).stats is Some {
                Some(p.stats)
            } else {
                None
            },
            finished: r.cache(kind).finished,
            options: join(
                option_parts(stamp.skip, stamp.clip_dur, p.skip, p.clip, vmaf_told(kind, stamp)),
                ", "@,
            ),
        },
        _ => BlockView { avg: None, stats: None, finished: None, options: Seq::empty() },
    }
}

pub fn block_for(r: &QueueRow, kind: MetricKind, p: &Printed) -> (b: Block)
    ensures
        b@ == block_of(r@, kind, p@),
{
    match r.cell(kind) {
        MetricCell::Done { stamp, .. } => {
            let cached = r.cached(kind);
            let vmaf: Option<(&str, Pooling)> = if matches!(kind, MetricKind::Vmaf) {
                match &stamp.vmaf_cfg {
                    Some(c) => Some((c.model.as_str(), c.pooling)),
                    None => None,
                }
            } else {
                None
            };
            Block {
                avg: Some(p.avg.clone()),
                stats: if cached.stats.is_some() {
                    Some(copy_all(&p.stats))
                } else {
                    None
                },
                finished: crate::probe::copy_text(&cached.finished),
                options: options_for(
                    stamp.skip,
                    stamp.clip_dur,
                    p.skip.as_str(),
                    p.clip.as_str(),
                    vmaf,
                ),
            }
        },
        _ => Block { avg: None, stats: None, finished: None, options: String::new() },
    }
}

/// How many frames the first computed metric from `n` on has.
pub open spec fn frames_of(r: RowView, n: int) -> Seq<char>
    decreases 7 - n,
{
    if n < 0 || n >= 7 {
        Seq::empty()
    } else {
        match r.cell(all_kinds()[n]) {
            CellView::Done { values, .. } => if values.len() > 0 {
                dec(values.len())
            } else {
                frames_of(r, n + 1)
            },
            _ => frames_of(r, n + 1),
        }
    }
}

pub fn frames_for(r: &QueueRow) -> (s: String)
    ensures
        s@ == frames_of(r@, 0),
{
    let all = MetricKind::all();
    let mut i: usize = 0;
    while i < 7
        invariant
            i <= 7,
            all@ == all_kinds(),
            frames_of(r@, 0) == frames_of(r@, i as int),
        decreases 7 - i,
    {
        if let MetricCell::Done { values, .. } = r.cell(all[i]) {
            if values.len() > 0 {
                return dec_usize(values.len());
            }
        }
        i += 1;
    }
    assert(frames_of(r@, 7) =~= Seq::<char>::empty());
    String::new()
}

pub open spec fn bitrate_of(m: Option<MediaView>) -> Seq<char> {
    match m {
        Some(i) => match i.bitrate_kbps {
            Some(k) => dec_int(k as int),
            None => Seq::empty(),
        },
        None => Seq::empty(),
    }
}

fn bitrate_for(m: &Option<MediaInfo>) -> (s: String)
    ensures
        s@ == bitrate_of(opt_media(*m)),
{
    match m {
        Some(i) => match i.bitrate_kbps {
            Some(k) => dec_i64(k),
            None => String::new(),
        },
        None => String::new(),
    }
}

/// The blocks of a row.
pub open spec fn blocks_of(r: RowView, p: Seq<PrintedView>) -> Seq<BlockView> {
    Seq::new(7, |i: int| block_of(r, all_kinds()[i], p[i]))
}

/// One row of the results file.
pub open spec fn line_of(
    now: Seq<char>,
    r: RowView,
    p: Seq<PrintedView>,
    app_version: Seq<char>,
    ffmpeg_version: Seq<char>,
) -> Seq<char> {
    join(
        row_cols(
            now,
            blocks_of(r, p),
            seq![frames_of(r, 0), results_text(r.info), bitrate_of(r.info), r.path],
            app_version,
            ffmpeg_version,
        ),
        "\t"@,
    )
}

pub fn line_for(
    now: &str,
    r: &QueueRow,
    p: &Vec<Printed>,
    app_version: &str,
    ffmpeg_version: &str,
) -> (s: String)
    requires
        p@.len() == 7,
    ensures
        s@ == line_of(now@, r@, printed_views(p@), app_version@, ffmpeg_version@),
{
    let all = MetricKind::all();
    let ghost want = blocks_of(r@, printed_views(p@));
    let mut blocks: Vec<Block> = Vec::new();
    let mut i: usize = 0;
    while i < 7
        invariant
            i <= 7,
            p@.len() == 7,
            all@ == all_kinds(),
            want == blocks_of(r@, printed_views(p@)),
            block_views(blocks@) =~= want.take(i as int),
        decreases 7 - i,
    {
        let ghost before = blocks@;
        blocks.push(block_for(r, all[i], &p[i]));
        assert(printed_views(p@)[i as int] == p@[i as int]@);
        assert(block_views(blocks@) =~= block_views(before).push(want[i as int]));
        i += 1;
        assert(block_views(blocks@) =~= want.take(i as int));
    }
    assert(want.take(7) =~= want);
    let data = ResultsRow {
        blocks,
        frames: frames_for(r),
        frame: results_media_text(&r.info),
        bitrate: bitrate_for(&r.info),
        path: r.path.clone(),
    };
    row(now, &data, app_version, ffmpeg_version)
}

pub open spec fn printed_lists(v: Seq<Vec<Printed>>) -> Seq<Seq<PrintedView>> {
    v.map_values(|l: Vec<Printed>| printed_views(l@))
}

/// The rows of the results file, one per queued file in the order of the
/// queue.
pub fn result_lines(
    now: &str,
    rows: &Vec<QueueRow>,
    printed: &Vec<Vec<Printed>>,
    app_version: &str,
    ffmpeg_version: &str,
) -> (r: Vec<String>)
    requires
        printed@.len() == rows@.len(),
        forall|i: int| 0 <= i < printed@.len() ==> (#[trigger] printed@[i])@.len() == 7,
    ensures
        texts(r@) == Seq::new(
            rows@.len(),
            |i: int|
                line_of(
                    now@,
                    row_views(rows@)[i],
                    printed_lists(printed@)[i],
                    app_version@,
                    ffmpeg_version@,
                ),
        ),
{
    let ghost want = Seq::new(
        rows@.len(),
        |i: int|
            line_of(
                now@,
                row_views(rows@)[i],
                printed_lists(printed@)[i],
                app_version@,
                ffmpeg_version@,
            ),
    );
    let mut r: Vec<String> = Vec::new();
    let mut i: usize = 0;
    assert(texts(r@) =~= want.take(0));
    while i < rows.len()
        invariant
            i <= rows@.len(),
            printed@.len() == rows@.len(),
            forall|j: int| 0 <= j < printed@.len() ==> (#[trigger] printed@[j])@.len() == 7,
            want == Seq::new(
                rows@.len(),
                |i: int|
                    line_of(
                        now@,
                        row_views(rows@)[i],
                        printed_lists(printed@)[i],
                        app_version@,
                        ffmpeg_version@,
                    ),
            ),
            texts(r@) == want.take(i as int),
        decreases rows.len() - i,
    {
        assert(row_views(rows@)[i as int] == rows@[i as int]@);
        assert(printed_lists(printed@)[i as int] == printed_views(printed@[i as int]@));
        let line = line_for(now, &rows[i], &printed[i], app_version, ffmpeg_version);
        put(&mut r, line.as_str());
        i += 1;
        assert(texts(r@) =~= want.take(i as int));
    }
    assert(want.take(i as int) =~= want);
    r
}

impl RunRuntime {
    /// Where results are due to be saved, if they are: the chosen file, or the
    /// default one. They are due no more.
    pub fn consume_autosave(&mut self, chosen: &str, default: &str) -> (r: Option<String>)
        ensures
            opt_text(r) == (if old(self)@.results_autosave_pending {
                Some(
                    if blank(chosen@) {
                        default@
                    } else {
                        chosen@
                    },
                )
            } else {
                None
            }),
            final(self)@ == (RunView { results_autosave_pending: false, ..old(self)@ }),
    {
        if !self.results_autosave_pending {
            return None;
        }
        self.results_autosave_pending = false;
        if is_blank(chosen) {
            Some(default.to_owned())
        } else {
            Some(chosen.to_owned())
        }
    }
}

/// The note on saved results.
pub open spec fn results_note(n: nat, path: Seq<char>, err: Option<Seq<char>>) -> ToastView {
    match err {
        None => ToastView {
            text: "Appended "@ + dec(n) + " row"@ + plural(n) + " to "@ + path,
            kind: ToastKind::Info,
        },
        Some(e) => ToastView {
            text: "Could not save results: "@ + e,
            kind: ToastKind::Error,
        },
    }
}

/// The note on saved results: how many rows went where, or what went wrong.
pub fn results_toast(n: usize, path: &str, err: &Option<String>) -> (r: Toast)
    ensures
        r@ == results_note(n as nat, path@, opt_text(*err)),
{
    match err {
        None => {
            let mut s = "Appended ".to_owned();
            s.append(dec_usize(n).as_str());
            s.append(" row");
            s.append(plural_of(n));
            s.append(" to ");
            s.append(path);
            info(s.as_str())
        },
        Some(e) => {
            let mut s = "Could not save results: ".to_owned();
            s.append(e.as_str());
            error(s.as_str())
        },
    }
}

/// A metric without a result leaves its block empty. One with a result tells
/// the pooled value, the statistics where they are kept, when it ended, and
/// the settings that differ from the plain ones.
pub proof fn lemma_blocks_tell_results(r: RowView, kind: MetricKind, p: PrintedView)
    ensures
        ({
            let b = block_of(r, kind, p);
            &&& !(r.cell(kind) is Done) ==> b.avg is None && b.stats is None && b.finished is None
                && b.options.len() == 0
            &&& r.cell(kind) is Done ==> {
                &&& b.avg == Some(p.avg)
                &&& r.cache(kind).stats is Some ==> b.stats == Some(p.stats)
                &&& r.cache(kind).stats is None ==> b.stats is None
                &&& b.finished == r.cache(kind).finished
            }
        }),
{
}

/// A trim is told where it is set and not zero; the model and the pooling are
/// told of VMAF alone.
pub proof fn lemma_options_tell_settings(r: RowView, kind: MetricKind, p: PrintedView) -> (parts: Seq<
    Seq<char>,
>)
    requires
        r.cell(kind) is Done,
    ensures
        block_of(r, kind, p).options == join(parts, ", "@),
        ({
            let s = r.cell(kind)->stamp;
            let skips = s.skip is Some && !s.skip->0.zero();
            let clips = s.clip_dur is Some && !s.clip_dur->0.zero();
            let at: int = if skips {
                1
            } else {
                0
            };
            let then_at: int = if clips {
                at + 1
            } else {
                at
            };
            let vmaf = kind is Vmaf && s.vmaf_cfg is Some;
            &&& skips ==> parts[0] == "Skip="@ + p.skip
            &&& clips ==> parts[at] == "Duration="@ + p.clip
            &&& vmaf ==> parts.len() == then_at + 2 && parts[then_at] == "Model="@ + s.vmaf_cfg->0.model
            &&& vmaf && s.vmaf_cfg->0.pooling is Mean ==> parts[then_at + 1] == "Pool="@ + "mean"@
            &&& vmaf && s.vmaf_cfg->0.pooling is HarmonicMean ==> parts[then_at + 1] == "Pool="@
                + "harmonic_mean"@
            &&& !vmaf ==> parts.len() == then_at
        }),
{
    let s = r.cell(kind)->stamp;
    option_parts(s.skip, s.clip_dur, p.skip, p.clip, vmaf_told(kind, s))
}

/// The blocks stand in the order of the metrics, each of its own metric.
pub proof fn lemma_blocks_stand_in_order(r: RowView, p: Seq<PrintedView>)
    ensures
        ({
            let b = blocks_of(r, p);
            &&& b.len() == 7
            &&& b[0] == block_of(r, MetricKind::Psnr, p[0])
            &&& b[1] == block_of(r, MetricKind::Ssim, p[1])
            &&& b[2] == block_of(r, MetricKind::Vmaf, p[2])
            &&& b[3] == block_of(r, MetricKind::Xpsnr, p[3])
            &&& b[4] == block_of(r, MetricKind::Ssim2, p[4])
            &&& b[5] == block_of(r, MetricKind::But, p[5])
            &&& b[6] == block_of(r, MetricKind::Cvvdp, p[6])
        }),
{
}

proof fn lemma_frames_from(r: RowView, kind: MetricKind, n: int)
    requires
        0 <= n <= kind.place(),
        r.cell(kind) is Done && r.cell(kind)->Done_values.len() > 0,
        forall|k: MetricKind|
            n <= k.place() < kind.place() ==> !(#[trigger] r.cell(k) is Done && r.cell(
                k,
            )->Done_values.len() > 0),
    ensures
        frames_of(r, n) == dec(r.cell(kind)->Done_values.len()),
    decreases kind.place() - n,
{
    let k = all_kinds()[n];
    assert(k.place() == n);
    if n < kind.place() {
        assert(!(r.cell(k) is Done && r.cell(k)->Done_values.len() > 0));
        lemma_frames_from(r, kind, n + 1);
    } else {
        assert(k == kind);
    }
}

/// A row counts the frames of the first metric that has values.
pub proof fn lemma_rows_count_frames(r: RowView, kind: MetricKind)
    requires
        r.cell(kind) is Done && r.cell(kind)->Done_values.len() > 0,
        forall|k: MetricKind|
            k.place() < kind.place() ==> !(#[trigger] r.cell(k) is Done && r.cell(
                k,
            )->Done_values.len() > 0),
    ensures
        frames_of(r, 0) == dec(r.cell(kind)->Done_values.len()),
{
    lemma_frames_from(r, kind, 0);
}

/// A known bit rate is told as it is.
pub proof fn lemma_rows_tell_bitrate(m: MediaView)
    ensures
        m.bitrate_kbps is Some ==> bitrate_of(Some(m)) == dec_int(m.bitrate_kbps->0 as int),
        m.bitrate_kbps is None ==> bitrate_of(Some(m)).len() == 0,
        bitrate_of(None).len() == 0,
{
}

/// The note on saved results tells of trouble exactly where there was some.
pub proof fn lemma_results_notes(n: nat, path: Seq<char>, err: Option<Seq<char>>)
    ensures
        results_note(n, path, err).kind is Error <==> err is Some,
        results_note(n, path, err).kind is Info <==> err is None,
{
}

/// A row of the results file tells the time first, and after the metrics the
/// frames, the pictures, the bit rate, the file, and the two versions.
pub proof fn lemma_rows_tell_their_file(
    now: Seq<char>,
    r: RowView,
    p: Seq<PrintedView>,
    app_version: Seq<char>,
    ffmpeg_version: Seq<char>,
) -> (cols: Seq<Seq<char>>)
    ensures
        line_of(now, r, p, app_version, ffmpeg_version) == join(cols, "\t"@),
        cols[0] == now,
        ({
            let n = cols.len();
            &&& n >= 7
            &&& cols[n - 6] == frames_of(r, 0)
            &&& cols[n - 5] == results_text(r.info)
            &&& cols[n - 4] == bitrate_of(r.info)
            &&& cols[n - 3] == r.path
            &&& cols[n - 2] == app_version
            &&& cols[n - 1] == ffmpeg_version
        }),
{
    row_cols(
        now,
        blocks_of(r, p),
        seq![frames_of(r, 0), results_text(r.info), bitrate_of(r.info), r.path],
        app_version,
        ffmpeg_version,
    )
}

} // verus!
