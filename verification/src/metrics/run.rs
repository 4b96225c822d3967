//! One metric run: the series it collects, the pieces of the error stream it
//! reads, and how it ends.
use vstd::prelude::*;
use vstd::string::StringExecFns;
use crate::metrics::ffmpeg::MetricKind;
use crate::metrics::output::{last_err_line, last_line};
use crate::num::Num;
use crate::outside::opt_text;
use crate::text::{full_lines, texts};

verus! {

/// A batch of live values ships when it holds this many.
pub const SERIES_BATCH: usize = 64;

/// How many lines of an error stream a failure shows in the log.
pub const STDERR_TAIL_LINES: usize = 30;

pub open spec fn rows_of(v: Seq<Vec<Num>>) -> Seq<Seq<Num>> {
    v.map_values(|r: Vec<Num>| r@)
}

/// Per-frame detail for export, row by row beside the values.
#[derive(Debug)]
pub enum FrameDetail {
    /// No rows were kept.
    Absent,
    /// Average, Y, U, V.
    Psnr(Vec<Vec<Num>>),
    /// Y, U, V, All.
    Ssim(Vec<Vec<Num>>),
    /// Y, U, V.
    Xpsnr(Vec<Vec<Num>>),
    /// Features by column, the score last.
    Vmaf { cols: Vec<String>, rows: Vec<Vec<Num>> },
    /// Scores by column.
    Scores { cols: Vec<String>, rows: Vec<Vec<Num>> },
}

pub enum DetailView {
    Absent,
    Psnr(Seq<Seq<Num>>),
    Ssim(Seq<Seq<Num>>),
    Xpsnr(Seq<Seq<Num>>),
    Vmaf { cols: Seq<Seq<char>>, rows: Seq<Seq<Num>> },
    Scores { cols: Seq<Seq<char>>, rows: Seq<Seq<Num>> },
}

impl View for FrameDetail {
    type V = DetailView;

    open spec fn view(&self) -> DetailView {
        match self {
            FrameDetail::Absent => DetailView::Absent,
            FrameDetail::Psnr(r) => DetailView::Psnr(rows_of(r@)),
            FrameDetail::Ssim(r) => DetailView::Ssim(rows_of(r@)),
            FrameDetail::Xpsnr(r) => DetailView::Xpsnr(rows_of(r@)),
            FrameDetail::Vmaf { cols, rows } => DetailView::Vmaf {
                cols: texts(cols@),
                rows: rows_of(rows@),
            },
            FrameDetail::Scores { cols, rows } => DetailView::Scores {
                cols: texts(cols@),
                rows: rows_of(rows@),
            },
        }
    }
}

/// How a run ended.
#[derive(Debug)]
pub struct RunOutcome {
    pub values: Vec<Num>,
    /// The pooled value that the tool itself gave.
    pub avg: Option<Num>,
    /// Seconds that the run took.
    pub exec_s: Num,
    pub error: Option<String>,
    pub detail: FrameDetail,
}

pub struct OutcomeView {
    pub values: Seq<Num>,
    pub avg: Option<Num>,
    pub exec_s: Num,
    pub error: Option<Seq<char>>,
    pub detail: DetailView,
}

impl View for RunOutcome {
    type V = OutcomeView;

    open spec fn view(&self) -> OutcomeView {
        OutcomeView {
            values: self.values@,
            avg: self.avg,
            exec_s: self.exec_s,
            error: opt_text(self.error),
            detail: self.detail@,
        }
    }
}

/// A run that ended with an error, and nothing else.
pub open spec fn failed(msg: Seq<char>, exec_s: Num) -> OutcomeView {
    OutcomeView {
        values: Seq::empty(),
        avg: None,
        exec_s,
        error: Some(msg),
        detail: DetailView::Absent,
    }
}

/// The outcome of a run that ended with an error.
pub fn fail(msg: &str, exec_s: Num) -> (r: RunOutcome)
    ensures
        r@ == failed(msg@, exec_s),
{
    RunOutcome {
        values: Vec::new(),
        avg: None,
        exec_s,
        error: Some(msg.to_owned()),
        detail: FrameDetail::Absent,
    }
}

/// One measured frame: its value, and the row that is exported of it, where
/// its line has one.
#[derive(Debug)]
pub struct Frame {
    pub value: Num,
    pub row: Option<Vec<Num>>,
}

#[verifier::ext_equal]
pub struct FrameView {
    pub value: Num,
    pub row: Option<Seq<Num>>,
}

impl View for Frame {
    type V = FrameView;

    open spec fn view(&self) -> FrameView {
        FrameView { value: self.value, row: opt_row(self.row) }
    }
}

pub open spec fn opt_row(r: Option<Vec<Num>>) -> Option<Seq<Num>> {
    match r {
        Some(x) => Some(x@),
        None => None,
    }
}

pub open spec fn frame_views(v: Seq<Frame>) -> Seq<FrameView> {
    v.map_values(|f: Frame| f@)
}

pub open spec fn opt_frame(f: Option<Frame>) -> Option<FrameView> {
    match f {
        Some(x) => Some(x@),
        None => None,
    }
}

/// What a line says of its frame: it tells of one where it has a value.
pub open spec fn frame_said(value: Option<Num>, row: Option<Seq<Num>>) -> Option<FrameView> {
    match value {
        Some(value) => Some(FrameView { value, row }),
        None => None,
    }
}

/// What a line says of its frame, given its value and its row.
pub fn frame_from(value: Option<Num>, row: Option<Vec<Num>>) -> (r: Option<Frame>)
    ensures
        opt_frame(r) == frame_said(value, opt_row(row)),
{
    match value {
        Some(value) => Some(Frame { value, row }),
        None => None,
    }
}

/// The values of some frames.
pub open spec fn frame_values(fs: Seq<FrameView>) -> Seq<Num> {
    fs.map_values(|f: FrameView| f.value)
}

/// Whether every frame has a row.
pub open spec fn all_rows(fs: Seq<FrameView>) -> bool {
    forall|i: int| 0 <= i < fs.len() ==> (#[trigger] fs[i]).row is Some
}

/// The rows of frames that all have one.
pub open spec fn frame_rows(fs: Seq<FrameView>) -> Seq<Seq<Num>> {
    fs.map_values(|f: FrameView| f.row->0)
}

/// The values that the live curve was not yet sent.
#[derive(Debug)]
pub struct Live {
    pub pending: Vec<Num>,
}

/// The frames of a running metric, and its live curve.
#[derive(Debug)]
pub struct Series {
    pub frames: Vec<Frame>,
    pub live: Live,
}

/// What the live curve was sent, and what waits.
pub struct Feed {
    pub sent: Seq<Num>,
    pub pending: Seq<Num>,
}

/// One more value: the waiting ones ship when there are enough of them, or
/// when enough time has passed.
pub open spec fn fed(f: Feed, v: Num, due: bool) -> Feed {
    let waiting = f.pending.push(v);
    if waiting.len() >= SERIES_BATCH || due {
        Feed { sent: f.sent + waiting, pending: Seq::empty() }
    } else {
        Feed { sent: f.sent, pending: waiting }
    }
}

/// The feed after a run of values.
pub open spec fn fed_all(vs: Seq<Num>, due: Seq<bool>) -> Feed
    decreases vs.len(),
{
    if vs.len() == 0 {
        Feed { sent: Seq::empty(), pending: Seq::empty() }
    } else {
        fed(fed_all(vs.drop_last(), due), vs.last(), due[vs.len() - 1])
    }
}

/// The live curve loses no value and keeps their order: what was sent and what
/// waits are together the values so far. Less than a batch ever waits.
pub proof fn lemma_feed_loses_nothing(vs: Seq<Num>, due: Seq<bool>)
    ensures
        fed_all(vs, due).sent + fed_all(vs, due).pending == vs,
        fed_all(vs, due).pending.len() < SERIES_BATCH,
    decreases vs.len(),
{
    if vs.len() > 0 {
        lemma_feed_loses_nothing(vs.drop_last(), due);
        let f = fed_all(vs.drop_last(), due);
        assert(f.sent + f.pending.push(vs.last()) =~= (f.sent + f.pending).push(vs.last()));
        assert(vs.drop_last().push(vs.last()) =~= vs);
        let g = fed_all(vs, due);
        assert(g.sent + g.pending =~= f.sent + f.pending.push(vs.last()));
    } else {
        assert(fed_all(vs, due).sent + fed_all(vs, due).pending =~= vs);
    }
}

impl Live {
    pub fn new() -> (r: Live)
        ensures
            r.pending@ == Seq::<Num>::empty(),
    {
        Live { pending: Vec::new() }
    }

    /// Takes one more value; `due` tells that enough time has passed since the
    /// last batch. Returns the batch to show, if one ships.
    pub fn push(&mut self, v: Num, due: bool) -> (r: Option<Vec<Num>>)
        ensures
            ({
                let was = Feed { sent: Seq::empty(), pending: old(self).pending@ };
                let now = fed(was, v, due);
                &&& final(self).pending@ == now.pending
                &&& match r {
                    Some(b) => b@ == now.sent && now.sent.len() > 0,
                    None => now.sent.len() == 0,
                }
            }),
    {
        self.pending.push(v);
        if self.pending.len() >= SERIES_BATCH || due {
            let mut batch: Vec<Num> = Vec::new();
            batch.append(&mut self.pending);
            assert(batch@ =~= Seq::<Num>::empty() + old(self).pending@.push(v));
            Some(batch)
        } else {
            None
        }
    }
}

impl Series {
    pub fn new() -> (r: Series)
        ensures
            frame_views(r.frames@) == Seq::<FrameView>::empty(),
            r.live.pending@ == Seq::<Num>::empty(),
    {
        let r = Series { frames: Vec::new(), live: Live::new() };
        assert(frame_views(r.frames@) =~= Seq::<FrameView>::empty());
        r
    }

    /// Takes one more frame; `due` tells that enough time has passed since the
    /// last batch. Returns the batch to show, if one ships.
    pub fn push(&mut self, frame: Frame, due: bool) -> (r: Option<Vec<Num>>)
        ensures
            frame_views(final(self).frames@) == frame_views(old(self).frames@).push(frame@),
            ({
                let was = Feed { sent: Seq::empty(), pending: old(self).live.pending@ };
                let now = fed(was, frame@.value, due);
                &&& final(self).live.pending@ == now.pending
                &&& match r {
                    Some(b) => b@ == now.sent && now.sent.len() > 0,
                    None => now.sent.len() == 0,
                }
            }),
    {
        let v = frame.value;
        self.frames.push(frame);
        assert(frame_views(self.frames@) =~= frame_views(old(self).frames@).push(frame@));
        self.live.push(v, due)
    }
}

/// The message of a run without data: the last line of the error stream, or
/// that there is none.
pub open spec fn no_data_text(name: Seq<char>, stderr: Seq<char>) -> Seq<char> {
    match last_line(stderr) {
        Some(l) => l,
        None => "no "@ + name + " data"@,
    }
}

/// The message of a run without data.
pub fn no_data_message(name: &str, stderr: &str) -> (r: String)
    ensures
        r@ == no_data_text(name@, stderr@),
{
    match last_err_line(stderr) {
        Some(l) => l,
        None => {
            let mut s = "no ".to_owned();
            s.append(name);
            s.append(" data");
            s
        },
    }
}

/// The detail of a filter metric's rows.
pub open spec fn detail_for(kind: MetricKind, rows: Seq<Seq<Num>>) -> DetailView {
    match kind {
        MetricKind::Psnr => DetailView::Psnr(rows),
        MetricKind::Ssim => DetailView::Ssim(rows),
        MetricKind::Xpsnr => DetailView::Xpsnr(rows),
        _ => DetailView::Absent,
    }
}

/// How a filter metric's run ends: its values are those of all frames; rows
/// are kept where every frame has one, so that they stand beside the values.
pub open spec fn metric_end(
    kind: MetricKind,
    aborted: bool,
    frames: Seq<FrameView>,
    stderr: Seq<char>,
    avg: Option<Num>,
    exec_s: Num,
) -> OutcomeView {
    if aborted {
        failed("aborted"@, exec_s)
    } else if frames.len() == 0 {
        failed(no_data_text(kind.name_text(), stderr), exec_s)
    } else {
        OutcomeView {
            values: frame_values(frames),
            avg,
            exec_s,
            error: None,
            detail: if all_rows(frames) {
                detail_for(kind, frame_rows(frames))
            } else {
                DetailView::Absent
            },
        }
    }
}

/// The rows of a detail; nothing where none were kept.
pub open spec fn detail_rows(d: DetailView) -> Option<Seq<Seq<Num>>> {
    match d {
        DetailView::Absent => None,
        DetailView::Psnr(rows) => Some(rows),
        DetailView::Ssim(rows) => Some(rows),
        DetailView::Xpsnr(rows) => Some(rows),
        DetailView::Vmaf { rows, .. } => Some(rows),
        DetailView::Scores { rows, .. } => Some(rows),
    }
}

/// A run that was not stopped fails exactly where no line has a value. One
/// that does not fail has a value for each frame in order, and rows exactly
/// where every frame has one: as many as values, each of the frame of the value
/// beside it. One that fails has neither values nor rows.
pub proof fn lemma_rows_stand_beside_values(
    kind: MetricKind,
    aborted: bool,
    frames: Seq<FrameView>,
    stderr: Seq<char>,
    avg: Option<Num>,
    exec_s: Num,
)
    requires
        kind is Psnr || kind is Ssim || kind is Xpsnr,
    ensures
        ({
            let end = metric_end(kind, aborted, frames, stderr, avg, exec_s);
            let rows = detail_rows(end.detail);
            &&& aborted ==> end.error == Some("aborted"@)
            &&& end.error is Some <==> aborted || frames.len() == 0
            &&& end.error is Some ==> end.values.len() == 0 && end.avg is None && rows is None
            &&& end.error is None ==> {
                &&& end.avg == avg
                &&& end.values.len() == frames.len()
                &&& forall|i: int|
                    0 <= i < frames.len() ==> (#[trigger] end.values[i]) == frames[i].value
                &&& rows is Some <==> all_rows(frames)
                &&& rows is Some ==> {
                    &&& rows->0.len() == end.values.len()
                    &&& forall|i: int|
                        0 <= i < frames.len() ==> Some(#[trigger] rows->0[i]) == frames[i].row
                }
            }
        }),
{
}

fn rows_kept(frames: &Vec<Frame>) -> (r: Option<Vec<Vec<Num>>>)
    ensures
        match r {
            Some(rows) => all_rows(frame_views(frames@)) && rows_of(rows@) == frame_rows(
                frame_views(frames@),
            ),
            None => !all_rows(frame_views(frames@)),
        },
{
    let ghost all = frame_views(frames@);
    let mut rows: Vec<Vec<Num>> = Vec::new();
    let mut i: usize = 0;
    assert(rows_of(rows@) =~= frame_rows(all).take(0));
    while i < frames.len()
        invariant
            i <= frames@.len(),
            all == frame_views(frames@),
            forall|j: int| 0 <= j < i ==> (#[trigger] all[j]).row is Some,
            rows_of(rows@) == frame_rows(all).take(i as int),
        decreases frames.len() - i,
    {
        assert(all[i as int] == frames@[i as int]@);
        match &frames[i].row {
            Some(row) => {
                let row: Vec<Num> = row.clone();
                assert(row@ =~= all[i as int].row->0);
                let ghost before = rows_of(rows@);
                rows.push(row);
                assert(rows_of(rows@) =~= before.push(row@));
            },
            None => {
                assert(all[i as int].row is None);
                return None;
            },
        }
        i += 1;
        assert(rows_of(rows@) =~= frame_rows(all).take(i as int));
    }
    assert(frame_rows(all).take(i as int) =~= frame_rows(all));
    Some(rows)
}

fn values_of(frames: &Vec<Frame>) -> (r: Vec<Num>)
    ensures
        r@ == frame_values(frame_views(frames@)),
{
    let ghost all = frame_views(frames@);
    let mut values: Vec<Num> = Vec::new();
    let mut i: usize = 0;
    while i < frames.len()
        invariant
            i <= frames@.len(),
            all == frame_views(frames@),
            values@ =~= frame_values(all).take(i as int),
        decreases frames.len() - i,
    {
        assert(all[i as int] == frames@[i as int]@);
        values.push(frames[i].value);
        i += 1;
    }
    assert(frame_values(all).take(i as int) =~= frame_values(all));
    values
}

/// The outcome of a filter metric's run: an abort drops what was collected, a
/// run without values says why, another has its series and pooled value.
pub fn metric_outcome(
    kind: MetricKind,
    aborted: bool,
    series: Series,
    stderr: &str,
    avg: Option<Num>,
    exec_s: Num,
) -> (r: RunOutcome)
    ensures
        r@ == metric_end(kind, aborted, frame_views(series.frames@), stderr@, avg, exec_s),
        detail_rows(r@.detail) is Some ==> detail_rows(r@.detail)->0.len() == r@.values.len(),
{
    if aborted {
        return fail("aborted", exec_s);
    }
    if series.frames.len() == 0 {
        return fail(no_data_message(kind.name(), stderr).as_str(), exec_s);
    }
    let values = values_of(&series.frames);
    let detail = match rows_kept(&series.frames) {
        Some(rows) => match kind {
            MetricKind::Psnr => FrameDetail::Psnr(rows),
            MetricKind::Ssim => FrameDetail::Ssim(rows),
            MetricKind::Xpsnr => FrameDetail::Xpsnr(rows),
            _ => FrameDetail::Absent,
        },
        None => FrameDetail::Absent,
    };
    RunOutcome { values, avg, exec_s, error: None, detail }
}

// ---- The error stream ----

/// The pieces that `bytes` complete, after a piece that began with `seg`, and
/// the piece that they leave begun. A carriage return ends a piece as a line
/// feed does; empty pieces do not count.
pub open spec fn pieces(seg: Seq<u8>, bytes: Seq<u8>) -> (Seq<Seq<u8>>, Seq<u8>)
    decreases bytes.len(),
{
    if bytes.len() == 0 {
        (Seq::empty(), seg)
    } else {
        let (done, open) = pieces(seg, bytes.drop_last());
        let b = bytes.last();
        if b == 13 || b == 10 {
            if open.len() == 0 {
                (done, open)
            } else {
                (done.push(open), Seq::empty())
            }
        } else {
            (done, open.push(b))
        }
    }
}

/// How the stream is cut into reads makes no difference to its pieces.
pub proof fn lemma_pieces_of_reads(seg: Seq<u8>, a: Seq<u8>, b: Seq<u8>)
    ensures
        ({
            let (done_a, open_a) = pieces(seg, a);
            let (done_b, open_b) = pieces(open_a, b);
            pieces(seg, a + b) == (done_a + done_b, open_b)
        }),
    decreases b.len(),
{
    let (done_a, open_a) = pieces(seg, a);
    if b.len() == 0 {
        assert(a + b =~= a);
        assert(done_a + Seq::<Seq<u8>>::empty() =~= done_a);
    } else {
        lemma_pieces_of_reads(seg, a, b.drop_last());
        assert((a + b).drop_last() =~= a + b.drop_last());
        let (done, open) = pieces(open_a, b.drop_last());
        assert(done_a + done.push(open) =~= (done_a + done).push(open));
    }
}

pub open spec fn byte_rows(v: Seq<Vec<u8>>) -> Seq<Seq<u8>> {
    v.map_values(|r: Vec<u8>| r@)
}

/// A reader that cuts a stream of bytes into pieces.
#[derive(Debug)]
pub struct Segments {
    /// The piece that is not ended.
    pub seg: Vec<u8>,
}

impl Segments {
    pub fn new() -> (r: Segments)
        ensures
            r.seg@ == Seq::<u8>::empty(),
    {
        Segments { seg: Vec::new() }
    }

    fn end_piece(&mut self, done: &mut Vec<Vec<u8>>)
        ensures
            final(self).seg@ == Seq::<u8>::empty(),
            byte_rows(final(done)@) == if old(self).seg@.len() == 0 {
                byte_rows(old(done)@)
            } else {
                byte_rows(old(done)@).push(old(self).seg@)
            },
    {
        if self.seg.len() > 0 {
            let mut piece: Vec<u8> = Vec::new();
            piece.append(&mut self.seg);
            assert(piece@ =~= old(self).seg@);
            done.push(piece);
            assert(byte_rows(done@) =~= byte_rows(old(done)@).push(old(self).seg@));
        } else {
            assert(self.seg@ =~= Seq::<u8>::empty());
        }
    }

    /// Takes one read and returns the pieces that it completes.
    pub fn feed(&mut self, bytes: &Vec<u8>) -> (r: Vec<Vec<u8>>)
        ensures
            (byte_rows(r@), final(self).seg@) == pieces(old(self).seg@, bytes@),
    {
        let mut done: Vec<Vec<u8>> = Vec::new();
        let mut i: usize = 0;
        assert(byte_rows(done@) =~= Seq::<Seq<u8>>::empty());
        assert(bytes@.take(0) =~= Seq::<u8>::empty());
        while i < bytes.len()
            invariant
                i <= bytes@.len(),
                (byte_rows(done@), self.seg@) == pieces(old(self).seg@, bytes@.take(i as int)),
            decreases bytes.len() - i,
        {
            let b: u8 = bytes[i];
            assert(bytes@.take(i + 1).drop_last() =~= bytes@.take(i as int));
            assert(bytes@.take(i + 1).last() == b);
            if b == 13 || b == 10 {
                self.end_piece(&mut done);
            } else {
                self.seg.push(b);
            }
            i += 1;
        }
        assert(bytes@.take(i as int) =~= bytes@);
        done
    }

    /// Ends the stream and returns the piece that was begun, if any.
    pub fn finish(&mut self) -> (r: Vec<Vec<u8>>)
        ensures
            final(self).seg@ == Seq::<u8>::empty(),
            byte_rows(r@) == if old(self).seg@.len() == 0 {
                Seq::empty()
            } else {
                seq![old(self).seg@]
            },
    {
        let mut done: Vec<Vec<u8>> = Vec::new();
        self.end_piece(&mut done);
        assert(byte_rows(Seq::<Vec<u8>>::empty()) =~= Seq::empty());
        assert(byte_rows(done@) =~= if old(self).seg@.len() == 0 {
            Seq::empty()
        } else {
            seq![old(self).seg@]
        });
        done
    }
}

/// The greatest frame number that was reported.
#[derive(Debug)]
pub struct HighMark {
    pub frame: u64,
}

impl HighMark {
    pub fn new() -> (r: HighMark)
        ensures
            r.frame == 0,
    {
        HighMark { frame: 0 }
    }

    /// Whether a frame number is worth a report: only one above all before.
    pub fn raise(&mut self, frame: u64) -> (r: bool)
        ensures
            r == (frame > old(self).frame),
            final(self).frame == if frame > old(self).frame {
                frame
            } else {
                old(self).frame
            },
    {
        if frame > self.frame {
            self.frame = frame;
            true
        } else {
            false
        }
    }
}

/// A run without data tells the last line of its errors, or that the metric has
/// none.
pub proof fn lemma_no_data_is_told(name: Seq<char>, stderr: Seq<char>)
    ensures
        full_lines(stderr).len() > 0 ==> no_data_text(name, stderr) == full_lines(stderr).last(),
        full_lines(stderr).len() == 0 ==> no_data_text(name, stderr) == "no "@ + name + " data"@,
{
}

/// A byte that ends a piece ends it, whichever of the two it is, and any other
/// is added to it.
pub proof fn lemma_pieces_end_at_line_ends(seg: Seq<u8>, bytes: Seq<u8>, b: u8)
    ensures
        ({
            let (done, open) = pieces(seg, bytes);
            let after = pieces(seg, bytes.push(b));
            &&& (b == 10 || b == 13) && open.len() > 0 ==> after == (done.push(open), Seq::<u8>::empty())
            &&& (b == 10 || b == 13) && open.len() == 0 ==> after == (done, open)
            &&& b != 10 && b != 13 ==> after == (done, open.push(b))
        }),
{
    assert(bytes.push(b).drop_last() =~= bytes);
}

} // verus!
