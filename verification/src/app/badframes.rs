//! The viewer of the worst frames: which frames it shows, which pictures are
//! made of them, and where they are exported to.
use vstd::prelude::*;
use vstd::string::StringExecFns;
use crate::app::model::{find_row, keyed, lemma_keyed};
use crate::app::queue::{row_views, QueueRow, RowView};
use crate::app::toast::{error, info, opt_toast, plural, plural_of, Toast, ToastKind, ToastView};
use crate::metrics::badframes::{
    export_dest_for, frame_at, frame_of, lemma_worst_picks, picture_text, stride, stride_for,
    tmp_dest_for, tmp_dest_ref_for, worse, worst, worst_n,
};
use crate::metrics::cell::{finished, CellView, MetricCell};
use crate::metrics::ffmpeg::{all_kinds, MetricKind};
use crate::num::{lemma_total_order_keeps_value_order, Num};
use crate::outside::{base_name, file_name, opt_text, parent, path_join, placed};
use crate::probe::{above_zero, opt_media, MediaInfo, MediaView};
use crate::text::{blank, dec, dec_usize, is_blank, parse_nat, parse_usize, same, texts};

verus! {

/// The number 30.
#[verifier::allow_in_spec]
pub fn thirty() -> Num
    returns
        (Num { bits: 0x403e_0000_0000_0000 }),
{
    Num { bits: 0x403e_0000_0000_0000 }
}

// ---- Frame rates ----

/// The frame rate of a file, where it is known and above zero.
pub open spec fn rate_of(m: Option<MediaView>) -> Option<Num> {
    match m {
        Some(i) => if above_zero(i.fps) {
            Some(i.fps->0.value)
        } else {
            None
        },
        None => None,
    }
}

pub fn usable_rate(m: &Option<MediaInfo>) -> (r: Option<Num>)
    ensures
        r == rate_of(opt_media(*m)),
{
    match m {
        Some(i) => match &i.fps {
            Some(f) => if f.value.is_positive() {
                Some(f.value)
            } else {
                None
            },
            None => None,
        },
        None => None,
    }
}

pub open spec fn first_some(a: Option<Num>, b: Option<Num>) -> Option<Num> {
    match a {
        Some(_) => a,
        None => b,
    }
}

fn first_of(a: Option<Num>, b: Option<Num>) -> (r: Option<Num>)
    ensures
        r == first_some(a, b),
{
    match a {
        Some(_) => a,
        None => b,
    }
}

/// The first frame rate that any row tells, from `n` on.
pub open spec fn any_rate(rows: Seq<RowView>, n: int) -> Num
    decreases rows.len() - n,
{
    if n < 0 || n >= rows.len() {
        thirty()
    } else if rows[n].info is Some && rows[n].info->0.fps is Some {
        rows[n].info->0.fps->0.value
    } else {
        any_rate(rows, n + 1)
    }
}

/// The frame rate that the reference is read with: its own, or that of the
/// first row that has one, or 30.
pub open spec fn ref_rate_of(own: Option<Num>, rows: Seq<RowView>) -> Num {
    match own {
        Some(f) => f,
        None => any_rate(rows, 0),
    }
}

pub fn ref_rate_for(own: Option<Num>, rows: &Vec<QueueRow>) -> (r: Num)
    ensures
        r == ref_rate_of(own, row_views(rows@)),
{
    if let Some(f) = own {
        return f;
    }
    let ghost all = row_views(rows@);
    let mut i: usize = 0;
    while i < rows.len()
        invariant
            i <= rows@.len(),
            own is None,
            all == row_views(rows@),
            any_rate(all, 0) == any_rate(all, i as int),
        decreases rows.len() - i,
    {
        assert(all[i as int] == rows@[i as int]@);
        if let Some(m) = &rows[i].info {
            if let Some(f) = &m.fps {
                return f.value;
            }
        }
        i += 1;
    }
    thirty()
}

// ---- Frames ----

/// How many frames are shown of each file: at least 1.
pub open spec fn count_of(text: Seq<char>) -> Option<nat> {
    match parse_nat(text, usize::MAX as nat) {
        Some(n) => if n >= 1 {
            Some(n)
        } else {
            None
        },
        None => None,
    }
}

pub fn count_for(text: &str) -> (r: Option<usize>)
    ensures
        match r {
            Some(n) => count_of(text@) == Some(n as nat),
            None => count_of(text@) is None,
        },
{
    match parse_usize(text) {
        Some(n) => if n >= 1 {
            Some(n)
        } else {
            None
        },
        None => None,
    }
}

/// One of the worst frames: its number, its value, and the frame rate by which
/// it is found.
#[derive(Debug, Clone, Copy, PartialEq, Eq, Structural)]
pub struct Pick {
    pub frame: usize,
    pub value: Num,
    pub fps: Num,
}

/// The worst `n` frames of a file, worst first; the greatest Butteraugli is
/// the worst.
pub open spec fn picks_of(r: RowView, kind: MetricKind, ref_rate: Option<Num>, n: nat) -> Seq<Pick> {
    match (r.cell(kind), first_some(ref_rate, rate_of(r.info))) {
        (CellView::Done { values, stamp, .. }, Some(fps)) => worst(
            values,
            n,
            kind is But,
        ).map_values(
            |p: (usize, Num)|
                Pick {
                    frame: frame_at(p.0 as int, stride(kind, stamp.vmaf_cfg)) as usize,
                    value: p.1,
                    fps,
                },
        ),
        _ => Seq::empty(),
    }
}

pub fn picks_for(r: &QueueRow, kind: MetricKind, ref_rate: Option<Num>, n: usize) -> (v: Vec<Pick>)
    ensures
        v@ == picks_of(r@, kind, ref_rate, n as nat),
{
    let fps = match first_of(ref_rate, usable_rate(&r.info)) {
        Some(f) => f,
        None => {
            let none: Vec<Pick> = Vec::new();
            assert(none@ =~= picks_of(r@, kind, ref_rate, n as nat));
            return none;
        },
    };
    let mut v: Vec<Pick> = Vec::new();
    match r.cell(kind) {
        MetricCell::Done { values, stamp, .. } => {
            let w = worst_n(values, n, matches!(kind, MetricKind::But));
            let step: usize = stride_for(kind, &stamp.vmaf_cfg);
            let ghost want = picks_of(r@, kind, ref_rate, n as nat);
            let mut i: usize = 0;
            while i < w.len()
                invariant
                    i <= w@.len(),
                    want.len() == w@.len(),
                    v@ =~= want.take(i as int),
                    forall|j: int|
                        0 <= j < w@.len() ==> #[trigger] want[j] == (Pick {
                            frame: frame_at(w@[j].0 as int, step as int) as usize,
                            value: w@[j].1,
                            fps,
                        }),
                decreases w.len() - i,
            {
                v.push(Pick { frame: frame_of(w[i].0, step), value: w[i].1, fps });
                i += 1;
            }
            assert(want.take(i as int) =~= want);
        },
        _ => {
            assert(v@ =~= picks_of(r@, kind, ref_rate, n as nat));
        },
    }
    v
}

/// The worst frames of one file of the viewer; none while the skipped time is
/// no time. A number of frames that cannot be read counts as 5.
pub open spec fn viewer_picks(
    rows: Seq<RowView>,
    kind: MetricKind,
    key: Seq<char>,
    ref_rate: Option<Num>,
    count: Seq<char>,
    has_skip: bool,
) -> Seq<Pick> {
    match keyed(rows, key, 0) {
        Some(i) => if has_skip {
            picks_of(
                rows[i],
                kind,
                ref_rate,
                match count_of(count) {
                    Some(n) => n,
                    None => 5,
                },
            )
        } else {
            Seq::empty()
        },
        None => Seq::empty(),
    }
}

/// The worst frames of one file of the viewer.
pub fn badframe_picks(
    rows: &Vec<QueueRow>,
    kind: MetricKind,
    key: &str,
    ref_rate: Option<Num>,
    count: &str,
    has_skip: bool,
) -> (r: Vec<Pick>)
    ensures
        r@ == viewer_picks(row_views(rows@), kind, key@, ref_rate, count@, has_skip),
{
    match find_row(rows, key) {
        Some(i) => {
            assert(row_views(rows@)[i as int] == rows@[i as int]@);
            if has_skip {
                let n: usize = match count_for(count) {
                    Some(n) => n,
                    None => 5,
                };
                picks_for(&rows[i], kind, ref_rate, n)
            } else {
                let none: Vec<Pick> = Vec::new();
                assert(none@ =~= Seq::<Pick>::empty());
                none
            }
        },
        None => {
            let none: Vec<Pick> = Vec::new();
            assert(none@ =~= Seq::<Pick>::empty());
            none
        },
    }
}

/// A file of the viewer: its key and its name.
#[derive(Debug)]
pub struct ViewerFile {
    pub key: String,
    pub display: String,
}

pub struct ViewerFileView {
    pub key: Seq<char>,
    pub display: Seq<char>,
}

impl View for ViewerFile {
    type V = ViewerFileView;

    open spec fn view(&self) -> ViewerFileView {
        ViewerFileView { key: self.key@, display: self.display@ }
    }
}

pub open spec fn file_views(v: Seq<ViewerFile>) -> Seq<ViewerFileView> {
    v.map_values(|f: ViewerFile| f@)
}

/// The files that the viewer offers: the included ones with a result.
pub open spec fn files_of(rows: Seq<RowView>, kind: MetricKind) -> Seq<ViewerFileView>
    decreases rows.len(),
{
    if rows.len() == 0 {
        Seq::empty()
    } else {
        let head = files_of(rows.drop_last(), kind);
        let r = rows.last();
        if r.included && finished(r.cell(kind)) {
            head.push(ViewerFileView { key: r.key, display: r.display })
        } else {
            head
        }
    }
}

/// The files that the viewer offers for a metric.
pub fn badframe_files_for(rows: &Vec<QueueRow>, kind: MetricKind) -> (v: Vec<ViewerFile>)
    ensures
        file_views(v@) == files_of(row_views(rows@), kind),
{
    let ghost all = row_views(rows@);
    let mut v: Vec<ViewerFile> = Vec::new();
    let mut i: usize = 0;
    assert(all.take(0) =~= Seq::<RowView>::empty());
    assert(file_views(v@) =~= Seq::<ViewerFileView>::empty());
    while i < rows.len()
        invariant
            i <= rows@.len(),
            all == row_views(rows@),
            file_views(v@) == files_of(all.take(i as int), kind),
        decreases rows.len() - i,
    {
        let ghost before = file_views(v@);
        assert(all.take(i + 1).drop_last() =~= all.take(i as int));
        assert(all.take(i + 1).last() == rows@[i as int]@);
        if rows[i].included && rows[i].cell(kind).has_values() {
            v.push(ViewerFile { key: rows[i].key.clone(), display: rows[i].display.clone() });
            assert(file_views(v@) =~= before.push(v@.last()@));
        }
        i += 1;
    }
    assert(all.take(i as int) =~= all);
    v
}

// ---- Pictures to make ----

/// A frame to make pictures of.
#[derive(Debug)]
pub struct BadframeJob {
    pub kind: MetricKind,
    pub dist_path: String,
    pub dist_fps: Num,
    pub frame: usize,
    /// The frame rate by which the frame is found.
    pub fps: Num,
}

pub struct FrameJobView {
    pub kind: MetricKind,
    pub dist_path: Seq<char>,
    pub dist_fps: Num,
    pub frame: usize,
    pub fps: Num,
}

impl View for BadframeJob {
    type V = FrameJobView;

    open spec fn view(&self) -> FrameJobView {
        FrameJobView {
            kind: self.kind,
            dist_path: self.dist_path@,
            dist_fps: self.dist_fps,
            frame: self.frame,
            fps: self.fps,
        }
    }
}

pub open spec fn frame_jobs(v: Seq<BadframeJob>) -> Seq<FrameJobView> {
    v.map_values(|j: BadframeJob| j@)
}

/// The frames of one file, each with the rate that the file is read with: its
/// own, or else the one by which frames are found.
pub open spec fn jobs_of_picks(r: RowView, kind: MetricKind, picks: Seq<Pick>) -> Seq<FrameJobView> {
    picks.map_values(
        |p: Pick|
            FrameJobView {
                kind,
                dist_path: r.path,
                dist_fps: match rate_of(r.info) {
                    Some(f) => f,
                    None => p.fps,
                },
                frame: p.frame,
                fps: p.fps,
            },
    )
}

/// The frames of all included files.
pub open spec fn tab_jobs(rows: Seq<RowView>, kind: MetricKind, ref_rate: Option<Num>, n: nat) -> Seq<
    FrameJobView,
>
    decreases rows.len(),
{
    if rows.len() == 0 {
        Seq::empty()
    } else {
        let head = tab_jobs(rows.drop_last(), kind, ref_rate, n);
        let r = rows.last();
        if r.included {
            head + jobs_of_picks(r, kind, picks_of(r, kind, ref_rate, n))
        } else {
            head
        }
    }
}

fn add_pick_jobs(jobs: &mut Vec<BadframeJob>, r: &QueueRow, kind: MetricKind, picks: &Vec<Pick>)
    ensures
        frame_jobs(final(jobs)@) == frame_jobs(old(jobs)@) + jobs_of_picks(r@, kind, picks@),
{
    let ghost j0 = frame_jobs(jobs@);
    let ghost want = jobs_of_picks(r@, kind, picks@);
    let own = usable_rate(&r.info);
    let mut i: usize = 0;
    assert(frame_jobs(jobs@) =~= j0 + want.take(0));
    while i < picks.len()
        invariant
            i <= picks@.len(),
            own == rate_of(r@.info),
            want == jobs_of_picks(r@, kind, picks@),
            frame_jobs(jobs@) == j0 + want.take(i as int),
        decreases picks.len() - i,
    {
        let ghost before = frame_jobs(jobs@);
        jobs.push(
            BadframeJob {
                kind,
                dist_path: r.path.clone(),
                dist_fps: match own {
                    Some(f) => f,
                    None => picks[i].fps,
                },
                frame: picks[i].frame,
                fps: picks[i].fps,
            },
        );
        assert(frame_jobs(jobs@) =~= before.push(want[i as int]));
        i += 1;
        assert(frame_jobs(jobs@) =~= j0 + want.take(i as int));
    }
    assert(want.take(i as int) =~= want);
}

/// The frames that the viewer needs for a metric; none where a picture cannot
/// be made: without ffmpeg, without the reference, while the skipped time or
/// the number of frames cannot be read, or where no file has a result.
pub fn badframe_jobs_for(
    rows: &Vec<QueueRow>,
    kind: MetricKind,
    has_ffmpeg: bool,
    ref_path: &str,
    ref_is_file: bool,
    has_skip: bool,
    ref_rate: Option<Num>,
    count: &str,
) -> (r: Vec<BadframeJob>)
    ensures
        frame_jobs(r@) == (if has_ffmpeg && !blank(ref_path@) && ref_is_file && has_skip
            && count_of(count@) is Some {
            tab_jobs(row_views(rows@), kind, ref_rate, count_of(count@)->0)
        } else {
            Seq::empty()
        }),
{
    let mut jobs: Vec<BadframeJob> = Vec::new();
    assert(frame_jobs(jobs@) =~= Seq::<FrameJobView>::empty());
    if !has_ffmpeg || is_blank(ref_path) || !ref_is_file || !has_skip {
        return jobs;
    }
    let n: usize = match count_for(count) {
        Some(n) => n,
        None => {
            return jobs;
        },
    };
    let ghost all = row_views(rows@);
    let mut i: usize = 0;
    assert(all.take(0) =~= Seq::<RowView>::empty());
    while i < rows.len()
        invariant
            i <= rows@.len(),
            all == row_views(rows@),
            frame_jobs(jobs@) == tab_jobs(all.take(i as int), kind, ref_rate, n as nat),
        decreases rows.len() - i,
    {
        assert(all.take(i + 1).drop_last() =~= all.take(i as int));
        assert(all.take(i + 1).last() == rows@[i as int]@);
        if rows[i].included {
            let picks = picks_for(&rows[i], kind, ref_rate, n);
            add_pick_jobs(&mut jobs, &rows[i], kind, &picks);
        }
        i += 1;
    }
    assert(all.take(i as int) =~= all);
    jobs
}

// ---- Exports ----

/// What is exported.
#[derive(Debug, Clone, Copy, PartialEq, Eq, Structural)]
pub enum BadframeExportScope {
    /// The frame that is shown.
    Pair,
    /// All frames of the tab.
    Metric,
    /// All frames of all metrics.
    All,
}

/// The frames of the file with a key; all of them, or the one at a place.
pub open spec fn key_jobs(
    rows: Seq<RowView>,
    kind: MetricKind,
    key: Seq<char>,
    ref_rate: Option<Num>,
    count: Seq<char>,
    has_skip: bool,
    only: Option<int>,
) -> Seq<FrameJobView> {
    match keyed(rows, key, 0) {
        Some(i) => {
            let picks = viewer_picks(rows, kind, key, ref_rate, count, has_skip);
            jobs_of_picks(
                rows[i],
                kind,
                match only {
                    Some(p) => if 0 <= p < picks.len() {
                        seq![picks[p]]
                    } else {
                        Seq::empty()
                    },
                    None => picks,
                },
            )
        },
        None => Seq::empty(),
    }
}

/// The frames of some files of the viewer.
pub open spec fn files_jobs(
    rows: Seq<RowView>,
    kind: MetricKind,
    files: Seq<ViewerFileView>,
    ref_rate: Option<Num>,
    count: Seq<char>,
    has_skip: bool,
) -> Seq<FrameJobView>
    decreases files.len(),
{
    if files.len() == 0 {
        Seq::empty()
    } else {
        files_jobs(rows, kind, files.drop_last(), ref_rate, count, has_skip) + key_jobs(
            rows,
            kind,
            files.last().key,
            ref_rate,
            count,
            has_skip,
            None,
        )
    }
}

/// The frames of the first `n` metrics.
pub open spec fn kinds_jobs(
    rows: Seq<RowView>,
    n: int,
    ref_rate: Option<Num>,
    count: Seq<char>,
    has_skip: bool,
) -> Seq<FrameJobView>
    decreases n,
{
    if n <= 0 {
        Seq::empty()
    } else {
        let kind = all_kinds()[n - 1];
        kinds_jobs(rows, n - 1, ref_rate, count, has_skip) + files_jobs(
            rows,
            kind,
            files_of(rows, kind),
            ref_rate,
            count,
            has_skip,
        )
    }
}

fn add_key_jobs(
    jobs: &mut Vec<BadframeJob>,
    rows: &Vec<QueueRow>,
    kind: MetricKind,
    key: &str,
    ref_rate: Option<Num>,
    count: &str,
    has_skip: bool,
    only: Option<usize>,
)
    ensures
        frame_jobs(final(jobs)@) == frame_jobs(old(jobs)@) + key_jobs(
            row_views(rows@),
            kind,
            key@,
            ref_rate,
            count@,
            has_skip,
            match only {
                Some(p) => Some(p as int),
                None => None,
            },
        ),
{
    match find_row(rows, key) {
        Some(i) => {
            assert(row_views(rows@)[i as int] == rows@[i as int]@);
            let picks = badframe_picks(rows, kind, key, ref_rate, count, has_skip);
            match only {
                Some(p) => {
                    let mut one: Vec<Pick> = Vec::new();
                    if p < picks.len() {
                        one.push(picks[p]);
                        assert(one@ =~= seq![picks@[p as int]]);
                    } else {
                        assert(one@ =~= Seq::<Pick>::empty());
                    }
                    add_pick_jobs(jobs, &rows[i], kind, &one);
                },
                None => add_pick_jobs(jobs, &rows[i], kind, &picks),
            }
        },
        None => {
            assert(frame_jobs(jobs@) =~= frame_jobs(jobs@) + Seq::<FrameJobView>::empty());
        },
    }
}

fn add_files_jobs(
    jobs: &mut Vec<BadframeJob>,
    rows: &Vec<QueueRow>,
    kind: MetricKind,
    ref_rate: Option<Num>,
    count: &str,
    has_skip: bool,
)
    ensures
        frame_jobs(final(jobs)@) == frame_jobs(old(jobs)@) + files_jobs(
            row_views(rows@),
            kind,
            files_of(row_views(rows@), kind),
            ref_rate,
            count@,
            has_skip,
        ),
{
    let files = badframe_files_for(rows, kind);
    let ghost all = file_views(files@);
    let ghost j0 = frame_jobs(jobs@);
    let ghost rv = row_views(rows@);
    let mut i: usize = 0;
    assert(all.take(0) =~= Seq::<ViewerFileView>::empty());
    assert(frame_jobs(jobs@) =~= j0 + files_jobs(rv, kind, all.take(0), ref_rate, count@, has_skip));
    while i < files.len()
        invariant
            i <= files@.len(),
            all == file_views(files@),
            rv == row_views(rows@),
            frame_jobs(jobs@) == j0 + files_jobs(
                rv,
                kind,
                all.take(i as int),
                ref_rate,
                count@,
                has_skip,
            ),
        decreases files.len() - i,
    {
        assert(all.take(i + 1).drop_last() =~= all.take(i as int));
        assert(all.take(i + 1).last() == files@[i as int]@);
        add_key_jobs(jobs, rows, kind, files[i].key.as_str(), ref_rate, count, has_skip, None);
        i += 1;
        assert(frame_jobs(jobs@) =~= j0 + files_jobs(
            rv,
            kind,
            all.take(i as int),
            ref_rate,
            count@,
            has_skip,
        ));
    }
    assert(all.take(i as int) =~= all);
}

/// The frames of an export.
pub open spec fn export_of(
    rows: Seq<RowView>,
    scope: BadframeExportScope,
    tab: MetricKind,
    file: Option<Seq<char>>,
    pos: int,
    ref_rate: Option<Num>,
    count: Seq<char>,
    has_skip: bool,
) -> Seq<FrameJobView> {
    match scope {
        BadframeExportScope::Pair => match file {
            Some(key) => key_jobs(rows, tab, key, ref_rate, count, has_skip, Some(pos)),
            None => Seq::empty(),
        },
        BadframeExportScope::Metric => files_jobs(
            rows,
            tab,
            files_of(rows, tab),
            ref_rate,
            count,
            has_skip,
        ),
        BadframeExportScope::All => kinds_jobs(rows, 7, ref_rate, count, has_skip),
    }
}

/// The frames of an export: the one that is shown, those of the tab, or those
/// of all metrics.
pub fn export_pairs(
    rows: &Vec<QueueRow>,
    scope: BadframeExportScope,
    tab: MetricKind,
    file: &Option<String>,
    pos: usize,
    ref_rate: Option<Num>,
    count: &str,
    has_skip: bool,
) -> (r: Vec<BadframeJob>)
    ensures
        frame_jobs(r@) == export_of(
            row_views(rows@),
            scope,
            tab,
            opt_text(*file),
            pos as int,
            ref_rate,
            count@,
            has_skip,
        ),
{
    let mut r: Vec<BadframeJob> = Vec::new();
    assert(frame_jobs(r@) =~= Seq::<FrameJobView>::empty());
    let ghost rv = row_views(rows@);
    match scope {
        BadframeExportScope::Pair => {
            if let Some(key) = file {
                add_key_jobs(
                    &mut r,
                    rows,
                    tab,
                    key.as_str(),
                    ref_rate,
                    count,
                    has_skip,
                    Some(pos),
                );
                assert(frame_jobs(r@) =~= key_jobs(
                    rv,
                    tab,
                    key@,
                    ref_rate,
                    count@,
                    has_skip,
                    Some(pos as int),
                ));
            }
        },
        BadframeExportScope::Metric => {
            add_files_jobs(&mut r, rows, tab, ref_rate, count, has_skip);
            assert(frame_jobs(r@) =~= files_jobs(
                rv,
                tab,
                files_of(rv, tab),
                ref_rate,
                count@,
                has_skip,
            ));
        },
        BadframeExportScope::All => {
            let all = MetricKind::all();
            let mut i: usize = 0;
            while i < 7
                invariant
                    i <= 7,
                    all@ == all_kinds(),
                    rv == row_views(rows@),
                    frame_jobs(r@) == kinds_jobs(rv, i as int, ref_rate, count@, has_skip),
                decreases 7 - i,
            {
                add_files_jobs(&mut r, rows, all[i], ref_rate, count, has_skip);
                i += 1;
            }
        },
    }
    r
}

/// A frame whose pictures are there already: they are copied.
#[derive(Debug)]
pub struct BadframeExportCopy {
    pub tmp_dist: String,
    pub tmp_ref: String,
    pub dest_dist: String,
    pub dest_ref: String,
    pub kind: MetricKind,
    pub frame: usize,
}

/// A frame whose pictures are to be made where they belong.
#[derive(Debug)]
pub struct BadframeExportJob {
    pub job: BadframeJob,
    pub dest_dist: String,
    pub dest_ref: String,
}

pub struct CopyView {
    pub tmp_dist: Seq<char>,
    pub tmp_ref: Seq<char>,
    pub dest_dist: Seq<char>,
    pub dest_ref: Seq<char>,
    pub kind: MetricKind,
    pub frame: usize,
}

pub struct ExportJobView {
    pub job: FrameJobView,
    pub dest_dist: Seq<char>,
    pub dest_ref: Seq<char>,
}

impl View for BadframeExportCopy {
    type V = CopyView;

    open spec fn view(&self) -> CopyView {
        CopyView {
            tmp_dist: self.tmp_dist@,
            tmp_ref: self.tmp_ref@,
            dest_dist: self.dest_dist@,
            dest_ref: self.dest_ref@,
            kind: self.kind,
            frame: self.frame,
        }
    }
}

impl View for BadframeExportJob {
    type V = ExportJobView;

    open spec fn view(&self) -> ExportJobView {
        ExportJobView {
            job: self.job@,
            dest_dist: self.dest_dist@,
            dest_ref: self.dest_ref@,
        }
    }
}

pub open spec fn copy_views(v: Seq<BadframeExportCopy>) -> Seq<CopyView> {
    v.map_values(|c: BadframeExportCopy| c@)
}

pub open spec fn export_views(v: Seq<BadframeExportJob>) -> Seq<ExportJobView> {
    v.map_values(|j: BadframeExportJob| j@)
}

/// The viewer's picture of a frame.
pub open spec fn tmp_picture(tmp: Seq<char>, j: FrameJobView, of_ref: bool) -> Seq<char> {
    path_join(
        tmp,
        picture_text(
            base_name(j.dist_path, file_name(j.dist_path)),
            j.kind.name_text(),
            j.frame as nat,
            of_ref,
        ),
    )
}

/// The exported picture of a frame.
pub open spec fn export_picture(dir: Seq<char>, j: FrameJobView, of_ref: bool) -> Seq<char> {
    placed(
        dir,
        parent(j.dist_path),
        picture_text(
            base_name(j.dist_path, file_name(j.dist_path)),
            j.kind.name_text(),
            j.frame as nat,
            of_ref,
        ),
    )
}

/// Where the viewer's pictures of a frame are: of the distorted file and of
/// the reference.
pub fn tmp_pictures(tmp: &str, j: &BadframeJob) -> (r: (String, String))
    ensures
        r.0@ == tmp_picture(tmp@, j@, false),
        r.1@ == tmp_picture(tmp@, j@, true),
{
    (
        tmp_dest_for(tmp, j.dist_path.as_str(), j.kind.name(), j.frame),
        tmp_dest_ref_for(tmp, j.dist_path.as_str(), j.kind.name(), j.frame),
    )
}

/// The frames whose pictures are there, to be copied.
pub open spec fn copies_of(
    jobs: Seq<FrameJobView>,
    ready: Seq<bool>,
    tmp: Seq<char>,
    dir: Seq<char>,
) -> Seq<CopyView>
    decreases jobs.len(),
{
    if jobs.len() == 0 {
        Seq::empty()
    } else {
        let head = copies_of(jobs.drop_last(), ready, tmp, dir);
        let j = jobs.last();
        if ready[jobs.len() - 1] {
            head.push(
                CopyView {
                    tmp_dist: tmp_picture(tmp, j, false),
                    tmp_ref: tmp_picture(tmp, j, true),
                    dest_dist: export_picture(dir, j, false),
                    dest_ref: export_picture(dir, j, true),
                    kind: j.kind,
                    frame: j.frame,
                },
            )
        } else {
            head
        }
    }
}

/// The frames whose pictures are to be made.
pub open spec fn makes_of(jobs: Seq<FrameJobView>, ready: Seq<bool>, dir: Seq<char>) -> Seq<
    ExportJobView,
>
    decreases jobs.len(),
{
    if jobs.len() == 0 {
        Seq::empty()
    } else {
        let head = makes_of(jobs.drop_last(), ready, dir);
        let j = jobs.last();
        if ready[jobs.len() - 1] {
            head
        } else {
            head.push(
                ExportJobView {
                    job: j,
                    dest_dist: export_picture(dir, j, false),
                    dest_ref: export_picture(dir, j, true),
                },
            )
        }
    }
}

/// Parts an export: frames whose pictures are there are copied, those of the
/// others are made where they belong.
pub fn split_export(jobs: &Vec<BadframeJob>, ready: &Vec<bool>, tmp: &str, dir: &str) -> (r: (
    Vec<BadframeExportCopy>,
    Vec<BadframeExportJob>,
))
    requires
        ready@.len() == jobs@.len(),
    ensures
        copy_views(r.0@) == copies_of(frame_jobs(jobs@), ready@, tmp@, dir@),
        export_views(r.1@) == makes_of(frame_jobs(jobs@), ready@, dir@),
        r.0@.len() + r.1@.len() == jobs@.len(),
{
    let ghost all = frame_jobs(jobs@);
    let mut copies: Vec<BadframeExportCopy> = Vec::new();
    let mut makes: Vec<BadframeExportJob> = Vec::new();
    let mut i: usize = 0;
    assert(all.take(0) =~= Seq::<FrameJobView>::empty());
    assert(copy_views(copies@) =~= Seq::<CopyView>::empty());
    assert(export_views(makes@) =~= Seq::<ExportJobView>::empty());
    while i < jobs.len()
        invariant
            i <= jobs@.len(),
            ready@.len() == jobs@.len(),
            all == frame_jobs(jobs@),
            copies@.len() + makes@.len() == i,
            copy_views(copies@) == copies_of(all.take(i as int), ready@, tmp@, dir@),
            export_views(makes@) == makes_of(all.take(i as int), ready@, dir@),
        decreases jobs.len() - i,
    {
        let ghost c0 = copy_views(copies@);
        let ghost m0 = export_views(makes@);
        assert(all.take(i + 1).drop_last() =~= all.take(i as int));
        assert(all.take(i + 1).last() == jobs@[i as int]@);
        let j = &jobs[i];
        let dest_dist = export_dest_for(dir, j.dist_path.as_str(), j.kind.name(), j.frame, false);
        let dest_ref = export_dest_for(dir, j.dist_path.as_str(), j.kind.name(), j.frame, true);
        if ready[i] {
            let t = tmp_pictures(tmp, j);
            copies.push(
                BadframeExportCopy {
                    tmp_dist: t.0,
                    tmp_ref: t.1,
                    dest_dist,
                    dest_ref,
                    kind: j.kind,
                    frame: j.frame,
                },
            );
            assert(copy_views(copies@) =~= c0.push(copies@.last()@));
        } else {
            makes.push(
                BadframeExportJob {
                    job: BadframeJob {
                        kind: j.kind,
                        dist_path: j.dist_path.clone(),
                        dist_fps: j.dist_fps,
                        frame: j.frame,
                        fps: j.fps,
                    },
                    dest_dist,
                    dest_ref,
                },
            );
            assert(export_views(makes@) =~= m0.push(makes@.last()@));
        }
        i += 1;
    }
    assert(all.take(i as int) =~= all);
    (copies, makes)
}

// ---- The viewer ----

/// The viewer and the work behind it.
#[derive(Debug)]
pub struct BadframesRuntime {
    /// Whether pictures are being made.
    pub busy: bool,
    pub done: usize,
    pub total: usize,
    pub open: bool,
    pub tab: MetricKind,
    /// The key of the file that is shown.
    pub file: Option<String>,
    /// The place of the frame that is shown among the worst ones.
    pub frame_pos: usize,
    /// Whether the pictures on the screen are of the frame that is shown.
    pub shown: bool,
    /// The viewer's pictures are to be deleted when the work ends.
    pub tmp_cleanup_pending: bool,
    /// Where an export goes, while one is on.
    pub export_note: Option<String>,
}

#[verifier::ext_equal]
pub struct ViewerView {
    pub busy: bool,
    pub done: usize,
    pub total: usize,
    pub open: bool,
    pub tab: MetricKind,
    pub file: Option<Seq<char>>,
    pub frame_pos: usize,
    pub shown: bool,
    pub tmp_cleanup_pending: bool,
    pub export_note: Option<Seq<char>>,
}

impl View for BadframesRuntime {
    type V = ViewerView;

    open spec fn view(&self) -> ViewerView {
        ViewerView {
            busy: self.busy,
            done: self.done,
            total: self.total,
            open: self.open,
            tab: self.tab,
            file: opt_text(self.file),
            frame_pos: self.frame_pos,
            shown: self.shown,
            tmp_cleanup_pending: self.tmp_cleanup_pending,
            export_note: opt_text(self.export_note),
        }
    }
}

/// The viewer of a fresh start.
pub open spec fn no_viewer() -> ViewerView {
    ViewerView {
        busy: false,
        done: 0,
        total: 0,
        open: false,
        tab: MetricKind::Psnr,
        file: None,
        frame_pos: 0,
        shown: false,
        tmp_cleanup_pending: false,
        export_note: None,
    }
}

impl Default for BadframesRuntime {
    fn default() -> (r: BadframesRuntime)
        ensures
            r@ == no_viewer(),
    {
        BadframesRuntime {
            busy: false,
            done: 0,
            total: 0,
            open: false,
            tab: MetricKind::Psnr,
            file: None,
            frame_pos: 0,
            shown: false,
            tmp_cleanup_pending: false,
            export_note: None,
        }
    }
}

/// What the worker tells.
#[derive(Debug)]
pub enum BadframeMsg {
    Progress { done: usize, total: usize },
    /// How many pictures were made, and what failed.
    Finished { ok: usize, errors: Vec<String> },
}

/// The note on an export.
pub open spec fn export_toast_of(saved: nat, failed: Seq<Seq<char>>, dest: Seq<char>) -> ToastView {
    if failed.len() == 0 {
        ToastView {
            text: "Exported "@ + dec(saved) + " PNGs to "@ + dest,
            kind: ToastKind::Info,
        }
    } else {
        ToastView {
            text: "Export: "@ + dec(saved) + " saved, "@ + dec(failed.len()) + " failed"@ + plural(
                failed.len(),
            ) + " ("@ + failed[0] + ") → "@ + dest,
            kind: ToastKind::Error,
        }
    }
}

/// The note on an export: how many pictures went where, and the first that
/// failed.
pub fn toast_export(saved: usize, failed: &Vec<String>, dest: &str) -> (r: Toast)
    ensures
        r@ == export_toast_of(saved as nat, texts(failed@), dest@),
{
    assert(texts(failed@).len() == failed@.len());
    if failed.len() == 0 {
        let mut s = "Exported ".to_owned();
        s.append(dec_usize(saved).as_str());
        s.append(" PNGs to ");
        s.append(dest);
        info(s.as_str())
    } else {
        assert(texts(failed@)[0] == failed@[0]@);
        let mut s = "Export: ".to_owned();
        s.append(dec_usize(saved).as_str());
        s.append(" saved, ");
        s.append(dec_usize(failed.len()).as_str());
        s.append(" failed");
        s.append(plural_of(failed.len()));
        s.append(" (");
        s.append(failed[0].as_str());
        s.append(") → ");
        s.append(dest);
        error(s.as_str())
    }
}

/// The note on the viewer's pictures.
pub open spec fn extract_toast_of(ok: nat, errors: Seq<Seq<char>>) -> ToastView {
    if errors.len() == 0 {
        ToastView {
            text: "Extracted "@ + dec(ok) + " bad-frame PNG"@ + plural(ok),
            kind: ToastKind::Info,
        }
    } else {
        ToastView {
            text: "Bad frames: "@ + dec(ok) + " saved, "@ + dec(errors.len()) + " failed"@ + plural(
                errors.len(),
            ) + " ("@ + errors[0] + ")"@,
            kind: ToastKind::Error,
        }
    }
}

/// The note on the viewer's pictures: how many were made, and the first that
/// failed.
pub fn toast_extract(ok: usize, errors: &Vec<String>) -> (r: Toast)
    ensures
        r@ == extract_toast_of(ok as nat, texts(errors@)),
{
    assert(texts(errors@).len() == errors@.len());
    if errors.len() == 0 {
        let mut s = "Extracted ".to_owned();
        s.append(dec_usize(ok).as_str());
        s.append(" bad-frame PNG");
        s.append(plural_of(ok));
        info(s.as_str())
    } else {
        assert(texts(errors@)[0] == errors@[0]@);
        let mut s = "Bad frames: ".to_owned();
        s.append(dec_usize(ok).as_str());
        s.append(" saved, ");
        s.append(dec_usize(errors.len()).as_str());
        s.append(" failed");
        s.append(plural_of(errors.len()));
        s.append(" (");
        s.append(errors[0].as_str());
        s.append(")");
        error(s.as_str())
    }
}

/// `<METRIC> frame <number>`: how a failed picture is told.
pub fn frame_text(kind: MetricKind, frame: usize) -> (r: String)
    ensures
        r@ == frame_name(kind, frame as nat),
{
    let mut s = kind.name().to_owned();
    s.append(" frame ");
    s.append(dec_usize(frame).as_str());
    s
}

// ---- The worker's count ----

/// What a worker has made so far.
#[derive(Debug)]
pub struct WorkTally {
    /// Pictures that were made.
    pub ok: usize,
    /// Pictures that were tried.
    pub done: usize,
    pub total: usize,
    pub errors: Vec<String>,
}

pub struct TallyView {
    pub ok: int,
    pub done: int,
    pub total: int,
    pub errors: Seq<Seq<char>>,
}

impl View for WorkTally {
    type V = TallyView;

    open spec fn view(&self) -> TallyView {
        TallyView {
            ok: self.ok as int,
            done: self.done as int,
            total: self.total as int,
            errors: texts(self.errors@),
        }
    }
}

/// How a failed picture is told.
pub open spec fn frame_name(kind: MetricKind, frame: nat) -> Seq<char> {
    kind.name_text() + " frame "@ + dec(frame)
}

/// The count after `n` more pictures of a frame, which all were made or not.
pub open spec fn counted(t: TallyView, n: int, made: bool, kind: MetricKind, frame: nat) -> TallyView {
    if made {
        TallyView { ok: t.ok + n, done: t.done + n, ..t }
    } else {
        TallyView { done: t.done + n, errors: t.errors.push(frame_name(kind, frame)), ..t }
    }
}

impl WorkTally {
    /// Nothing is made yet of so many pictures.
    pub fn new(total: usize) -> (r: WorkTally)
        ensures
            r@.ok == 0,
            r@.done == 0,
            r@.total == total,
            r@.errors.len() == 0,
    {
        WorkTally { ok: 0, done: 0, total, errors: Vec::new() }
    }

    fn count(&mut self, n: usize, made: bool, kind: MetricKind, frame: usize) -> (msg: BadframeMsg)
        requires
            old(self).ok <= old(self).done,
            old(self).done + n <= usize::MAX,
        ensures
            final(self)@ == counted(old(self)@, n as int, made, kind, frame as nat),
            msg == (BadframeMsg::Progress { done: final(self).done, total: old(self).total }),
    {
        if made {
            self.ok = self.ok + n;
        } else {
            let ghost before = texts(self.errors@);
            self.errors.push(frame_text(kind, frame));
            assert(texts(self.errors@) =~= before.push(frame_name(kind, frame as nat)));
        }
        self.done = self.done + n;
        BadframeMsg::Progress { done: self.done, total: self.total }
    }

    /// Notes that both pictures of a frame were copied, or that one was not.
    pub fn copied(&mut self, both: bool, kind: MetricKind, frame: usize) -> (msg: BadframeMsg)
        requires
            old(self).ok <= old(self).done,
            old(self).done + 2 <= usize::MAX,
        ensures
            final(self)@ == counted(old(self)@, 2, both, kind, frame as nat),
            msg == (BadframeMsg::Progress { done: final(self).done, total: old(self).total }),
    {
        self.count(2, both, kind, frame)
    }

    /// Notes that a picture of a frame was made, or that it was not.
    pub fn extracted(&mut self, made: bool, kind: MetricKind, frame: usize) -> (msg: BadframeMsg)
        requires
            old(self).ok <= old(self).done,
            old(self).done + 1 <= usize::MAX,
        ensures
            final(self)@ == counted(old(self)@, 1, made, kind, frame as nat),
            msg == (BadframeMsg::Progress { done: final(self).done, total: old(self).total }),
    {
        self.count(1, made, kind, frame)
    }

    /// What the worker tells at its end.
    pub fn finish(self) -> (msg: BadframeMsg)
        ensures
            msg == (BadframeMsg::Finished { ok: self.ok, errors: self.errors }),
    {
        BadframeMsg::Finished { ok: self.ok, errors: self.errors }
    }
}

/// No picture is lost from the count: each that was tried was made, or its
/// frame is among the errors.
pub proof fn lemma_nothing_uncounted(t: TallyView, made: bool, kind: MetricKind, frame: nat)
    requires
        t.ok + t.errors.len() == t.done,
    ensures
        ({
            let u = counted(t, 1, made, kind, frame);
            u.ok + u.errors.len() == u.done && u.ok <= u.done
        }),
{
}

/// The key of the first of some files.
pub open spec fn first_key(files: Seq<ViewerFileView>) -> Option<Seq<char>> {
    if files.len() > 0 {
        Some(files[0].key)
    } else {
        None
    }
}

fn first_key_of(files: &Vec<ViewerFile>) -> (r: Option<String>)
    ensures
        opt_text(r) == first_key(file_views(files@)),
{
    assert(file_views(files@).len() == files@.len());
    if files.len() > 0 {
        assert(file_views(files@)[0] == files@[0]@);
        Some(files[0].key.clone())
    } else {
        None
    }
}

/// The file to show: the chosen one while it is queued, else the first that
/// there is.
pub open spec fn file_after(file: Option<Seq<char>>, rows: Seq<RowView>, tab: MetricKind) -> Option<
    Seq<char>,
> {
    if file is Some && keyed(rows, file->0, 0) is Some {
        file
    } else {
        first_key(files_of(rows, tab))
    }
}

/// What the end of the work changes.
pub open spec fn work_ended(v: ViewerView, rows: Seq<RowView>) -> ViewerView {
    let idle = ViewerView {
        busy: false,
        done: 0,
        total: 0,
        tmp_cleanup_pending: false,
        export_note: None,
        ..v
    };
    if v.export_note is Some {
        idle
    } else {
        ViewerView { shown: false, frame_pos: 0, file: file_after(v.file, rows, v.tab), ..idle }
    }
}

/// What is to be done when the work ended.
#[derive(Debug)]
pub struct WorkEnd {
    /// The viewer's pictures are to be deleted.
    pub delete_tmp: bool,
    /// The viewer's pictures are to be listed again.
    pub rescan: bool,
    pub toast: Toast,
}

/// What stands in the way of an export.
pub open spec fn export_refusal(has_ffmpeg: bool, has_ref: bool, frames: nat) -> Option<ToastView> {
    if !has_ffmpeg {
        Some(ToastView { text: "Export needs ffmpeg"@, kind: ToastKind::Error })
    } else if !has_ref {
        Some(ToastView { text: "Export needs the reference file"@, kind: ToastKind::Error })
    } else if frames == 0 {
        Some(ToastView { text: "Nothing to export: run a metric first"@, kind: ToastKind::Info })
    } else {
        None
    }
}

/// What stands in the way of an export: no ffmpeg, no reference, or no frame.
pub fn refuse_export(has_ffmpeg: bool, ref_path: &str, ref_is_file: bool, frames: usize) -> (r: Option<
    Toast,
>)
    ensures
        opt_toast(r) == export_refusal(
            has_ffmpeg,
            !blank(ref_path@) && ref_is_file,
            frames as nat,
        ),
{
    if !has_ffmpeg {
        Some(error("Export needs ffmpeg"))
    } else if is_blank(ref_path) || !ref_is_file {
        Some(error("Export needs the reference file"))
    } else if frames == 0 {
        Some(info("Nothing to export: run a metric first"))
    } else {
        None
    }
}

/// How the place of an export is told.
pub open spec fn dest_text(dir: Seq<char>) -> Seq<char> {
    if blank(dir) {
        "beside each file"@
    } else {
        dir
    }
}

impl BadframesRuntime {
    /// Whether work can begin: neither a run nor other work is on.
    pub fn can_begin(&self, measuring: bool) -> (r: bool)
        ensures
            r == (!measuring && !self@.busy),
    {
        !measuring && !self.busy
    }

    /// Begins to make the viewer's pictures, two for each frame; says why not
    /// where there is none.
    pub fn begin_extract(&mut self, frames: usize) -> (r: Option<Toast>)
        requires
            frames <= usize::MAX / 2,
        ensures
            frames == 0 ==> final(self)@ == old(self)@ && opt_toast(r) == Some(
                ToastView { text: "Nothing to export: run a metric first"@, kind: ToastKind::Info },
            ),
            frames > 0 ==> r is None && final(self)@ == (ViewerView {
                busy: true,
                done: 0,
                total: (frames * 2) as usize,
                ..old(self)@
            }),
    {
        if frames == 0 {
            return Some(info("Nothing to export: run a metric first"));
        }
        self.busy = true;
        self.done = 0;
        self.total = frames * 2;
        None
    }

    /// Begins an export of so many frames to a folder.
    pub fn begin_export(&mut self, frames: usize, dir: &str)
        requires
            frames <= usize::MAX / 2,
        ensures
            final(self)@ == (ViewerView {
                busy: true,
                done: 0,
                total: (frames * 2) as usize,
                export_note: Some(dest_text(dir@)),
                ..old(self)@
            }),
    {
        self.busy = true;
        self.done = 0;
        self.total = frames * 2;
        self.export_note = if is_blank(dir) {
            Some("beside each file".to_owned())
        } else {
            Some(dir.to_owned())
        };
    }

    /// Takes what the worker tells; returns what is to be done when it ended.
    pub fn take_badframe(&mut self, rows: &Vec<QueueRow>, msg: BadframeMsg) -> (r: Option<WorkEnd>)
        ensures
            match msg {
                BadframeMsg::Progress { done, total } => {
                    &&& r is None
                    &&& final(self)@ == (ViewerView { done, total, ..old(self)@ })
                },
                BadframeMsg::Finished { ok, errors } => {
                    &&& final(self)@ == work_ended(old(self)@, row_views(rows@))
                    &&& r is Some
                    &&& r->0.delete_tmp == old(self)@.tmp_cleanup_pending
                    &&& r->0.rescan == (old(self)@.export_note is None)
                    &&& r->0.toast@ == (match old(self)@.export_note {
                        Some(dest) => export_toast_of(ok as nat, texts(errors@), dest),
                        None => extract_toast_of(ok as nat, texts(errors@)),
                    })
                },
            },
    {
        match msg {
            BadframeMsg::Progress { done, total } => {
                self.done = done;
                self.total = total;
                None
            },
            BadframeMsg::Finished { ok, errors } => {
                self.busy = false;
                self.done = 0;
                self.total = 0;
                let delete_tmp = self.tmp_cleanup_pending;
                self.tmp_cleanup_pending = false;
                match self.export_note.take() {
                    Some(dest) => Some(
                        WorkEnd {
                            delete_tmp,
                            rescan: false,
                            toast: toast_export(ok, &errors, dest.as_str()),
                        },
                    ),
                    None => {
                        self.shown = false;
                        self.frame_pos = 0;
                        let gone = match &self.file {
                            Some(k) => find_row(rows, k.as_str()).is_none(),
                            None => true,
                        };
                        if gone {
                            let files = badframe_files_for(rows, self.tab);
                            self.file = first_key_of(&files);
                        }
                        Some(
                            WorkEnd {
                                delete_tmp,
                                rescan: true,
                                toast: toast_extract(ok, &errors),
                            },
                        )
                    },
                }
            },
        }
    }

    /// Closes the viewer; tells whether its pictures are to be deleted now.
    /// While work is on they are deleted when it ends.
    pub fn close_badframes(&mut self) -> (delete_tmp: bool)
        ensures
            delete_tmp == !old(self)@.busy,
            final(self)@ == (ViewerView {
                open: false,
                shown: false,
                tmp_cleanup_pending: old(self)@.tmp_cleanup_pending || old(self)@.busy,
                ..old(self)@
            }),
    {
        self.open = false;
        self.shown = false;
        if self.busy {
            self.tmp_cleanup_pending = true;
            false
        } else {
            true
        }
    }

    /// Shows another metric, from its worst frame on.
    pub fn pick_tab(&mut self, tab: MetricKind)
        ensures
            final(self)@ == (ViewerView { tab, frame_pos: 0, shown: false, ..old(self)@ }),
    {
        self.tab = tab;
        self.frame_pos = 0;
        self.shown = false;
    }

    /// Shows a file that there is: the chosen one, or the first where it has
    /// no result.
    pub fn settle_file(&mut self, files: &Vec<ViewerFile>)
        ensures
            final(self)@ == (if offers(file_views(files@), old(self)@.file) {
                old(self)@
            } else {
                ViewerView {
                    file: first_key(file_views(files@)),
                    frame_pos: 0,
                    shown: false,
                    ..old(self)@
                }
            }),
    {
        let known = match &self.file {
            Some(k) => has_file(files, k.as_str()),
            None => false,
        };
        if !known {
            self.file = first_key_of(files);
            self.frame_pos = 0;
            self.shown = false;
        }
    }

    /// Shows the frame at a place among `n`, or the last.
    pub fn pick_frame(&mut self, pos: usize, n: usize)
        ensures
            final(self)@ == (ViewerView {
                frame_pos: within(pos as int, n as int) as usize,
                shown: old(self)@.shown && within(pos as int, n as int) == old(self)@.frame_pos,
                ..old(self)@
            }),
    {
        let last: usize = if n > 0 {
            n - 1
        } else {
            0
        };
        let at: usize = if pos > last {
            last
        } else {
            pos
        };
        if at != self.frame_pos {
            self.frame_pos = at;
            self.shown = false;
        }
    }

    /// Shows the frame before.
    pub fn step_back(&mut self, n: usize)
        ensures
            final(self)@.frame_pos == within(
                if old(self)@.frame_pos > 0 {
                    old(self)@.frame_pos - 1
                } else {
                    0
                },
                n as int,
            ),
            final(self)@ == (ViewerView {
                frame_pos: final(self)@.frame_pos,
                shown: old(self)@.shown && final(self)@.frame_pos == old(self)@.frame_pos,
                ..old(self)@
            }),
    {
        let pos: usize = if self.frame_pos > 0 {
            self.frame_pos - 1
        } else {
            0
        };
        self.pick_frame(pos, n);
    }

    /// Shows the frame after.
    pub fn step_on(&mut self, n: usize)
        ensures
            final(self)@.frame_pos == within(old(self)@.frame_pos + 1, n as int),
            final(self)@ == (ViewerView {
                frame_pos: final(self)@.frame_pos,
                shown: old(self)@.shown && final(self)@.frame_pos == old(self)@.frame_pos,
                ..old(self)@
            }),
    {
        let pos: usize = if self.frame_pos < usize::MAX {
            self.frame_pos + 1
        } else {
            usize::MAX
        };
        self.pick_frame(pos, n);
    }

    /// How far the work is: `Exporting 1/2` or `Extracting 1/2`.
    pub fn progress_text(&self) -> (r: String)
        ensures
            r@ == (if self@.export_note is Some {
                "Exporting"@
            } else {
                "Extracting"@
            }) + " "@ + dec(self@.done as nat) + "/"@ + dec(self@.total as nat),
    {
        let mut s = if self.export_note.is_some() {
            "Exporting".to_owned()
        } else {
            "Extracting".to_owned()
        };
        s.append(" ");
        s.append(dec_usize(self.done).as_str());
        s.append("/");
        s.append(dec_usize(self.total).as_str());
        s
    }
}

/// A place among `n`, or the last.
pub open spec fn within(pos: int, n: int) -> int {
    let last = if n > 0 {
        n - 1
    } else {
        0
    };
    if pos > last {
        last
    } else {
        pos
    }
}

/// The frame that is shown is always one of the worst, where there is any.
pub proof fn lemma_shown_frame_is_there(pos: int, n: int)
    requires
        0 <= pos,
        0 < n,
    ensures
        0 <= within(pos, n) < n,
{
}

/// Whether a file is among those that the viewer offers.
pub open spec fn offers(files: Seq<ViewerFileView>, file: Option<Seq<char>>) -> bool {
    file is Some && exists|i: int|
        0 <= i < files.len() && (#[trigger] files[i]).key == file->0
}

pub fn has_file(files: &Vec<ViewerFile>, key: &str) -> (r: bool)
    ensures
        r == offers(file_views(files@), Some(key@)),
{
    let ghost all = file_views(files@);
    let mut i: usize = 0;
    while i < files.len()
        invariant
            i <= files@.len(),
            all == file_views(files@),
            forall|j: int| 0 <= j < i ==> (#[trigger] all[j]).key != key@,
        decreases files.len() - i,
    {
        assert(all[i as int] == files@[i as int]@);
        if same(files[i].key.as_str(), key) {
            assert(all[i as int].key == key@);
            return true;
        }
        i += 1;
    }
    false
}

/// Whether any metric has frames to export.
pub open spec fn any_files(rows: Seq<RowView>) -> bool {
    exists|i: int| 0 <= i < 7 && files_of(rows, #[trigger] all_kinds()[i]).len() > 0
}

/// What can be exported: the frame that is shown, those of the tab, those of
/// all metrics.
pub fn can_export(
    rows: &Vec<QueueRow>,
    v: &BadframesRuntime,
    measuring: bool,
    ref_rate: Option<Num>,
    count: &str,
    has_skip: bool,
) -> (r: (bool, bool, bool))
    ensures
        ({
            let free = !measuring && !v@.busy;
            let rv = row_views(rows@);
            r == (
                free && v@.file is Some && v@.frame_pos < viewer_picks(
                    rv,
                    v@.tab,
                    v@.file->0,
                    ref_rate,
                    count@,
                    has_skip,
                ).len(),
                free && files_of(rv, v@.tab).len() > 0,
                free && any_files(rv),
            )
        }),
{
    let free = v.can_begin(measuring);
    let pair = match &v.file {
        Some(k) => {
            let picks = badframe_picks(rows, v.tab, k.as_str(), ref_rate, count, has_skip);
            v.frame_pos < picks.len()
        },
        None => false,
    };
    let files = badframe_files_for(rows, v.tab);
    assert(file_views(files@).len() == files@.len());
    let metric = files.len() > 0;
    let kinds = MetricKind::all();
    let ghost rv = row_views(rows@);
    let mut any = false;
    let mut i: usize = 0;
    while i < 7
        invariant
            i <= 7,
            kinds@ == all_kinds(),
            rv == row_views(rows@),
            any == exists|j: int| 0 <= j < i && files_of(rv, #[trigger] all_kinds()[j]).len() > 0,
        decreases 7 - i,
    {
        let some = badframe_files_for(rows, kinds[i]);
        assert(file_views(some@).len() == some@.len());
        if some.len() > 0 {
            assert(files_of(rv, all_kinds()[i as int]).len() > 0);
            any = true;
        }
        i += 1;
    }
    (free && pair, free && metric, free && any)
}

// ---- What is picked ----

/// The frames that are picked of a file are the worst of its series: for
/// Butteraugli those with the greatest values, for every other metric those
/// with the least. No value that is left out is worse than one that is picked,
/// and the worst comes first. There are as many as were asked for, or as many
/// as the series has. Each tells its value, the number of its frame, which for
/// a thinned-out VMAF series is so many times the place in the series, and the
/// rate by which the frame is found, the reference's before the file's own.
pub proof fn lemma_picks_are_the_worst(r: RowView, kind: MetricKind, ref_rate: Option<Num>, n: nat) -> (at:
    Seq<int>)
    requires
        r.cell(kind) is Done,
        r.cell(kind)->Done_values.len() <= usize::MAX,
        ref_rate is Some || (r.info is Some && above_zero(r.info->0.fps)),
    ensures
        ({
            let values = r.cell(kind)->Done_values;
            let cfg = r.cell(kind)->stamp.vmaf_cfg;
            let picks = picks_of(r, kind, ref_rate, n);
            let step: int = if kind is Vmaf && cfg is Some && cfg->0.subsample >= 2 {
                cfg->0.subsample as int
            } else {
                1
            };
            &&& picks.len() == at.len()
            &&& picks.len() == (if n < values.len() {
                n
            } else {
                values.len()
            })
            &&& forall|a: int|
                0 <= a < at.len() ==> 0 <= #[trigger] at[a] < values.len() && picks[a].value
                    == values[at[a]] && picks[a].frame == (if at[a] * step <= usize::MAX {
                    at[a] * step
                } else {
                    usize::MAX as int
                }) && picks[a].fps == (if ref_rate is Some {
                    ref_rate->0
                } else {
                    r.info->0.fps->0.value
                })
            &&& forall|a: int, b: int|
                0 <= a < b < at.len() ==> #[trigger] at[a] != #[trigger] at[b] && (if kind is But {
                    !values[at[a]].less(values[at[b]])
                } else {
                    !values[at[b]].less(values[at[a]])
                })
            &&& forall|a: int, i: int|
                0 <= a < at.len() && 0 <= i < values.len() && !at.contains(i) ==> (if kind is But {
                    !(#[trigger] values[at[a]]).less(#[trigger] values[i])
                } else {
                    !values[i].less(values[at[a]])
                })
        }),
{
    let values = r.cell(kind)->Done_values;
    let big = kind is But;
    let w = worst(values, n, big);
    lemma_worst_picks(values, n, big);
    let at = w.map_values(|p: (usize, Num)| p.0 as int);
    assert forall|a: int, b: int| 0 <= a < b < at.len() implies #[trigger] at[a] != #[trigger] at[b]
        && (if kind is But {
        !values[at[a]].less(values[at[b]])
    } else {
        !values[at[b]].less(values[at[a]])
    }) by {
        assert(worse(values, big, w[a].0 as int, w[b].0 as int));
        lemma_total_order_keeps_value_order(values[at[a]], values[at[b]]);
        lemma_total_order_keeps_value_order(values[at[b]], values[at[a]]);
    }
    assert forall|a: int, i: int|
        0 <= a < at.len() && 0 <= i < values.len() && !at.contains(i) implies (if kind is But {
        !(#[trigger] values[at[a]]).less(#[trigger] values[i])
    } else {
        !values[i].less(values[at[a]])
    }) by {
        assert forall|b: int| 0 <= b < w.len() implies (#[trigger] w[b]).0 != i by {
            assert(at[b] == w[b].0);
        }
        assert(worse(values, big, w[a].0 as int, i));
        lemma_total_order_keeps_value_order(values[at[a]], values[i]);
        lemma_total_order_keeps_value_order(values[i], values[at[a]]);
    }
    at
}

/// Nothing is picked of a file without a finished series, nor where no frame
/// rate is known.
pub proof fn lemma_nothing_to_pick(r: RowView, kind: MetricKind, ref_rate: Option<Num>, n: nat)
    requires
        !(r.cell(kind) is Done) || (ref_rate is None && (r.info is None || !above_zero(
            r.info->0.fps,
        ))),
    ensures
        picks_of(r, kind, ref_rate, n).len() == 0,
{
}

/// The viewer offers exactly the included files that have a result with
/// values.
pub proof fn lemma_offered_files(rows: Seq<RowView>, kind: MetricKind, f: ViewerFileView)
    ensures
        files_of(rows, kind).contains(f) <==> exists|i: int|
            0 <= i < rows.len() && (#[trigger] rows[i]).included && rows[i].cell(kind) is Done
                && rows[i].cell(kind)->Done_values.len() > 0 && rows[i].key == f.key
                && rows[i].display == f.display,
    decreases rows.len(),
{
    if rows.len() > 0 {
        let head = rows.drop_last();
        lemma_offered_files(head, kind, f);
        let known = files_of(head, kind);
        let last = rows.last();
        let mine = ViewerFileView { key: last.key, display: last.display };
        assert(known.push(mine).contains(f) <==> known.contains(f) || mine == f) by {
            let g = known.push(mine);
            assert(g[known.len() as int] == mine);
            if known.contains(f) {
                let i = choose|i: int| 0 <= i < known.len() && known[i] == f;
                assert(g[i] == f);
            }
        }
        if known.contains(f) {
            let i = choose|i: int|
                0 <= i < head.len() && (#[trigger] head[i]).included && head[i].cell(kind) is Done
                    && head[i].cell(kind)->Done_values.len() > 0 && head[i].key == f.key
                    && head[i].display == f.display;
            assert(rows[i] == head[i]);
        }
        if exists|i: int|
            0 <= i < rows.len() && (#[trigger] rows[i]).included && rows[i].cell(kind) is Done
                && rows[i].cell(kind)->Done_values.len() > 0 && rows[i].key == f.key
                && rows[i].display == f.display {
            let i = choose|i: int|
                0 <= i < rows.len() && (#[trigger] rows[i]).included && rows[i].cell(kind) is Done
                    && rows[i].cell(kind)->Done_values.len() > 0 && rows[i].key == f.key
                    && rows[i].display == f.display;
            if i < head.len() {
                assert(head[i] == rows[i]);
            }
        }
    }
}

/// An export makes both pictures of every frame, once: of a frame whose
/// pictures are there they are copied, of another they are made. Each is put
/// under its own name, that of the distorted file and that of the reference.
pub proof fn lemma_export_is_complete(
    jobs: Seq<FrameJobView>,
    ready: Seq<bool>,
    tmp: Seq<char>,
    dir: Seq<char>,
)
    requires
        ready.len() >= jobs.len(),
    ensures
        copies_of(jobs, ready, tmp, dir).len() + makes_of(jobs, ready, dir).len() == jobs.len(),
        forall|i: int|
            0 <= i < jobs.len() && #[trigger] ready[i] ==> copies_of(jobs, ready, tmp, dir).contains(
                CopyView {
                    tmp_dist: tmp_picture(tmp, jobs[i], false),
                    tmp_ref: tmp_picture(tmp, jobs[i], true),
                    dest_dist: export_picture(dir, jobs[i], false),
                    dest_ref: export_picture(dir, jobs[i], true),
                    kind: jobs[i].kind,
                    frame: jobs[i].frame,
                },
            ),
        forall|i: int|
            0 <= i < jobs.len() && !(#[trigger] ready[i]) ==> makes_of(jobs, ready, dir).contains(
                ExportJobView {
                    job: jobs[i],
                    dest_dist: export_picture(dir, jobs[i], false),
                    dest_ref: export_picture(dir, jobs[i], true),
                },
            ),
    decreases jobs.len(),
{
    if jobs.len() > 0 {
        let head = jobs.drop_last();
        lemma_export_is_complete(head, ready, tmp, dir);
        let c = copies_of(jobs, ready, tmp, dir);
        let m = makes_of(jobs, ready, dir);
        let c0 = copies_of(head, ready, tmp, dir);
        let m0 = makes_of(head, ready, dir);
        let last = jobs.len() - 1;
        assert forall|x: CopyView| c0.contains(x) implies #[trigger] c.contains(x) by {
            let k = choose|k: int| 0 <= k < c0.len() && c0[k] == x;
            assert(c[k] == x);
        }
        assert forall|x: ExportJobView| m0.contains(x) implies #[trigger] m.contains(x) by {
            let k = choose|k: int| 0 <= k < m0.len() && m0[k] == x;
            assert(m[k] == x);
        }
        if ready[last] {
            assert(c[c0.len() as int] == c.last());
        } else {
            assert(m[m0.len() as int] == m.last());
        }
        assert forall|i: int| 0 <= i < jobs.len() && #[trigger] ready[i] implies c.contains(
            CopyView {
                tmp_dist: tmp_picture(tmp, jobs[i], false),
                tmp_ref: tmp_picture(tmp, jobs[i], true),
                dest_dist: export_picture(dir, jobs[i], false),
                dest_ref: export_picture(dir, jobs[i], true),
                kind: jobs[i].kind,
                frame: jobs[i].frame,
            },
        ) by {
            if i < last {
                assert(head[i] == jobs[i]);
            }
        }
        assert forall|i: int| 0 <= i < jobs.len() && !(#[trigger] ready[i]) implies m.contains(
            ExportJobView {
                job: jobs[i],
                dest_dist: export_picture(dir, jobs[i], false),
                dest_ref: export_picture(dir, jobs[i], true),
            },
        ) by {
            if i < last {
                assert(head[i] == jobs[i]);
            }
        }
    }
}

/// A copied picture keeps its name: the viewer's and the exported one of a
/// frame are named alike, and the exported one stands in the chosen folder,
/// or beside the distorted file where none is chosen.
pub proof fn lemma_exported_pictures_keep_their_names(
    tmp: Seq<char>,
    dir: Seq<char>,
    j: FrameJobView,
    of_ref: bool,
) -> (name: Seq<char>)
    ensures
        tmp_picture(tmp, j, of_ref) == path_join(tmp, name),
        !blank(dir) ==> export_picture(dir, j, of_ref) == path_join(dir, name),
        blank(dir) && parent(j.dist_path) is Some && parent(j.dist_path)->0.len() > 0
            ==> export_picture(dir, j, of_ref) == path_join(parent(j.dist_path)->0, name),
        name == picture_text(
            if file_name(j.dist_path) is Some {
                file_name(j.dist_path)->0
            } else {
                j.dist_path
            },
            j.kind.name_text(),
            j.frame as nat,
            of_ref,
        ),
{
    picture_text(
        base_name(j.dist_path, file_name(j.dist_path)),
        j.kind.name_text(),
        j.frame as nat,
        of_ref,
    )
}

/// A job finds its frame by the rate of its pick, and reads the file at the
/// file's own rate, or at the pick's where the file has none.
pub proof fn lemma_jobs_follow_picks(r: RowView, kind: MetricKind, picks: Seq<Pick>, i: int)
    requires
        0 <= i < picks.len(),
    ensures
        jobs_of_picks(r, kind, picks).len() == picks.len(),
        ({
            let j = jobs_of_picks(r, kind, picks)[i];
            &&& j.kind == kind && j.dist_path == r.path
            &&& j.frame == picks[i].frame && j.fps == picks[i].fps
            &&& j.dist_fps == (if r.info is Some && above_zero(r.info->0.fps) {
                r.info->0.fps->0.value
            } else {
                picks[i].fps
            })
        }),
{
}

/// The work's note tells of trouble exactly where something failed.
pub proof fn lemma_notes_tell_of_trouble(n: nat, failed: Seq<Seq<char>>, dest: Seq<char>)
    ensures
        export_toast_of(n, failed, dest).kind is Error <==> failed.len() > 0,
        extract_toast_of(n, failed).kind is Error <==> failed.len() > 0,
        export_refusal(true, true, n) is None <==> n > 0,
        export_refusal(false, true, n) is Some && export_refusal(true, false, n) is Some,
{
}

/// The end of an export leaves what the viewer shows as it is; the end of an
/// extraction shows the first frame, of the chosen file while it is queued.
/// Either way the work is over.
pub proof fn lemma_work_ends(v: ViewerView, rows: Seq<RowView>)
    ensures
        ({
            let e = work_ended(v, rows);
            &&& !e.busy && e.done == 0 && e.total == 0 && !e.tmp_cleanup_pending && e.export_note is None
            &&& e.open == v.open && e.tab == v.tab
            &&& v.export_note is Some ==> e.file == v.file && e.frame_pos == v.frame_pos && e.shown
                == v.shown
            &&& v.export_note is None ==> e.frame_pos == 0 && !e.shown
            &&& v.export_note is None && v.file is Some && keyed(rows, v.file->0, 0) is Some ==> e.file
                == v.file
        }),
{
}

proof fn lemma_any_rate(rows: Seq<RowView>, i: int, n: int)
    requires
        0 <= n <= i < rows.len(),
        rows[i].info is Some && rows[i].info->0.fps is Some,
        forall|j: int|
            n <= j < i ==> (#[trigger] rows[j]).info is None || rows[j].info->0.fps is None,
    ensures
        any_rate(rows, n) == rows[i].info->0.fps->0.value,
    decreases i - n,
{
    if n < i {
        assert(rows[n].info is None || rows[n].info->0.fps is None);
        lemma_any_rate(rows, i, n + 1);
    }
}

proof fn lemma_no_rate(rows: Seq<RowView>, n: int)
    requires
        0 <= n <= rows.len(),
        forall|j: int|
            n <= j < rows.len() ==> (#[trigger] rows[j]).info is None || rows[j].info->0.fps is None,
    ensures
        any_rate(rows, n) == (Num { bits: 0x403e_0000_0000_0000 }),
    decreases rows.len() - n,
{
    if n < rows.len() {
        assert(rows[n].info is None || rows[n].info->0.fps is None);
        lemma_no_rate(rows, n + 1);
    }
}

/// The reference is read with its own rate, else with that of the first file
/// that tells one, else with 30 frames a second.
pub proof fn lemma_reference_has_a_rate(own: Option<Num>, rows: Seq<RowView>, i: int)
    ensures
        own is Some ==> ref_rate_of(own, rows) == own->0,
        own is None && 0 <= i < rows.len() && rows[i].info is Some && rows[i].info->0.fps is Some && (
        forall|j: int| 0 <= j < i ==> (#[trigger] rows[j]).info is None || rows[j].info->0.fps is None)
            ==> ref_rate_of(own, rows) == rows[i].info->0.fps->0.value,
        own is None && (forall|j: int|
            0 <= j < rows.len() ==> (#[trigger] rows[j]).info is None || rows[j].info->0.fps is None)
            ==> ref_rate_of(own, rows) == (Num { bits: 0x403e_0000_0000_0000 }),
{
    if own is None {
        if 0 <= i < rows.len() && rows[i].info is Some && rows[i].info->0.fps is Some && (forall|j: int|
            0 <= j < i ==> (#[trigger] rows[j]).info is None || rows[j].info->0.fps is None) {
            lemma_any_rate(rows, i, 0);
        }
        if forall|j: int|
            0 <= j < rows.len() ==> (#[trigger] rows[j]).info is None || rows[j].info->0.fps is None {
            lemma_no_rate(rows, 0);
        }
    }
}

/// The viewer shows as many of a file's worst frames as are asked for, and five
/// where the number cannot be read or is none. It shows nothing of a file that
/// is not queued, nor while the skipped time is no time.
pub proof fn lemma_viewer_shows_worst_frames(
    rows: Seq<RowView>,
    kind: MetricKind,
    key: Seq<char>,
    ref_rate: Option<Num>,
    count: Seq<char>,
    i: int,
)
    requires
        0 <= i < rows.len(),
        rows[i].key == key,
        forall|a: int, b: int|
            0 <= a < b < rows.len() ==> (#[trigger] rows[a]).key != (#[trigger] rows[b]).key,
    ensures
        ({
            let n = parse_nat(count, usize::MAX as nat);
            let shown = viewer_picks(rows, kind, key, ref_rate, count, true);
            &&& n is Some && n->0 >= 1 ==> shown == picks_of(rows[i], kind, ref_rate, n->0)
            &&& n is None || n->0 == 0 ==> shown == picks_of(rows[i], kind, ref_rate, 5)
        }),
        viewer_picks(rows, kind, key, ref_rate, count, false).len() == 0,
{
    lemma_keyed(rows, key, 0);
    let j = keyed(rows, key, 0)->0;
    if j < i {
        assert(rows[j].key != rows[i].key);
    } else if i < j {
        assert(rows[i].key != rows[j].key);
    }
}

/// An extraction takes the worst frames of every included file, file by file,
/// and of no other.
pub proof fn lemma_extraction_takes_all_files(
    rows: Seq<RowView>,
    r: RowView,
    kind: MetricKind,
    ref_rate: Option<Num>,
    n: nat,
)
    ensures
        r.included ==> tab_jobs(rows.push(r), kind, ref_rate, n) == tab_jobs(rows, kind, ref_rate, n)
            + jobs_of_picks(r, kind, picks_of(r, kind, ref_rate, n)),
        !r.included ==> tab_jobs(rows.push(r), kind, ref_rate, n) == tab_jobs(rows, kind, ref_rate, n),
        tab_jobs(Seq::empty(), kind, ref_rate, n).len() == 0,
{
    assert(rows.push(r).drop_last() =~= rows);
}

/// An export takes the frame that is shown, or all frames of all files of the
/// metric that is shown, or those of every metric, in the order of the metrics.
pub proof fn lemma_exports_take_their_scope(
    rows: Seq<RowView>,
    tab: MetricKind,
    file: Option<Seq<char>>,
    pos: int,
    ref_rate: Option<Num>,
    count: Seq<char>,
)
    ensures
        ({
            let pair = export_of(
                rows,
                BadframeExportScope::Pair,
                tab,
                file,
                pos,
                ref_rate,
                count,
                true,
            );
            &&& pair.len() <= 1
            &&& file is None ==> pair.len() == 0
            &&& file is Some && keyed(rows, file->0, 0) is Some ==> {
                let picks = viewer_picks(rows, tab, file->0, ref_rate, count, true);
                &&& 0 <= pos < picks.len() ==> pair.len() == 1 && pair[0].frame == picks[pos].frame
                    && pair[0].kind == tab && pair[0].dist_path == rows[keyed(
                    rows,
                    file->0,
                    0,
                )->0].path
                &&& !(0 <= pos < picks.len()) ==> pair.len() == 0
            }
        }),
        ({
            let all = export_of(
                rows,
                BadframeExportScope::All,
                tab,
                file,
                pos,
                ref_rate,
                count,
                true,
            );
            let of = |k: MetricKind|
                export_of(
                    rows,
                    BadframeExportScope::Metric,
                    k,
                    file,
                    pos,
                    ref_rate,
                    count,
                    true,
                );
            all == of(MetricKind::Psnr) + of(MetricKind::Ssim) + of(MetricKind::Vmaf) + of(
                MetricKind::Xpsnr,
            ) + of(MetricKind::Ssim2) + of(MetricKind::But) + of(MetricKind::Cvvdp)
        }),
{
    reveal_with_fuel(kinds_jobs, 8);
    let of = |k: MetricKind|
        export_of(rows, BadframeExportScope::Metric, k, file, pos, ref_rate, count, true);
    assert(Seq::<FrameJobView>::empty() + of(MetricKind::Psnr) =~= of(MetricKind::Psnr));
}

/// Of some files all frames are taken, file by file.
pub proof fn lemma_files_are_taken_in_order(
    rows: Seq<RowView>,
    kind: MetricKind,
    files: Seq<ViewerFileView>,
    f: ViewerFileView,
    ref_rate: Option<Num>,
    count: Seq<char>,
)
    ensures
        ({
            let before = files_jobs(rows, kind, files, ref_rate, count, true);
            let after = files_jobs(rows, kind, files.push(f), ref_rate, count, true);
            &&& keyed(rows, f.key, 0) is Some ==> after == before + jobs_of_picks(
                rows[keyed(rows, f.key, 0)->0],
                kind,
                viewer_picks(rows, kind, f.key, ref_rate, count, true),
            )
            &&& keyed(rows, f.key, 0) is None ==> after == before
        }),
{
    assert(files.push(f).drop_last() =~= files);
    let before = files_jobs(rows, kind, files, ref_rate, count, true);
    assert(before + Seq::<FrameJobView>::empty() =~= before);
}

/// Every picture counts as done, and as made or as failed: a made one adds to
/// those made, and a failed frame is told once.
pub proof fn lemma_pictures_are_counted(t: TallyView, n: int, kind: MetricKind, frame: nat)
    ensures
        counted(t, n, true, kind, frame).done == t.done + n,
        counted(t, n, true, kind, frame).ok == t.ok + n,
        counted(t, n, true, kind, frame).errors == t.errors,
        counted(t, n, false, kind, frame).done == t.done + n,
        counted(t, n, false, kind, frame).ok == t.ok,
        counted(t, n, false, kind, frame).errors == t.errors.push(
            kind.name_text() + " frame "@ + dec(frame),
        ),
        counted(t, n, true, kind, frame).total == t.total && counted(t, n, false, kind, frame).total
            == t.total,
{
}

/// A place stays where it is among so many, and is the last where it is beyond.
pub proof fn lemma_places_stay_within(pos: int, n: int)
    requires
        pos >= 0,
    ensures
        n > 0 ==> 0 <= within(pos, n) < n,
        pos < n ==> within(pos, n) == pos,
        pos >= n > 0 ==> within(pos, n) == n - 1,
        n <= 0 ==> within(pos, n) == 0,
{
}

/// A chosen file stays chosen while it is queued; else the first that is
/// offered is shown, and none where none is.
pub proof fn lemma_first_offered_file_is_shown(
    file: Option<Seq<char>>,
    rows: Seq<RowView>,
    tab: MetricKind,
)
    ensures
        ({
            let files = files_of(rows, tab);
            let queued = file is Some && keyed(rows, file->0, 0) is Some;
            &&& queued ==> file_after(file, rows, tab) == file
            &&& !queued && files.len() > 0 ==> file_after(file, rows, tab) == Some(files[0].key)
            &&& !queued && files.len() == 0 ==> file_after(file, rows, tab) is None
        }),
{
}

/// A file is offered exactly where it is one of those offered, and there is
/// something to export exactly where some metric offers a file.
pub proof fn lemma_offers(files: Seq<ViewerFileView>, i: int, rows: Seq<RowView>, kind: MetricKind)
    ensures
        0 <= i < files.len() ==> offers(files, Some(files[i].key)),
        !offers(files, None),
        files.len() == 0 ==> forall|k: Seq<char>| !#[trigger] offers(files, Some(k)),
        files_of(rows, kind).len() > 0 ==> any_files(rows),
{
    if 0 <= i < files.len() {
        assert(files[i].key == files[i].key);
    }
    assert(all_kinds()[kind.place()] == kind);
}

/// An export is told to go to the chosen folder, or beside each file where none
/// is chosen.
pub proof fn lemma_destination_is_told(dir: Seq<char>)
    ensures
        blank(dir) ==> dest_text(dir) == "beside each file"@,
        !blank(dir) ==> dest_text(dir) == dir,
{
}

} // verus!
