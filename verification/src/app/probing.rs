//! What is asked of files and programs in the background, and which answers
//! still count when they come.
use vstd::prelude::*;
use crate::app::config::MetricToggles;
use crate::app::model::{
    job_views, keyed, find_row, next_token, queue_ok, lemma_keyed, lemma_same_cells_ok,
    lemma_sound_by_rows, JobView, ProbeJob, QueueModel, QueueView,
};
use crate::app::queue::{row_ok, RowView};
use crate::binaries::{BinaryInfo, BinaryView};
use crate::metrics::ffmpeg::MetricKind;
use crate::outside::{file_name, opt_text, path_file_name};
use crate::probe::{opt_media, unprobed_reference, unprobed_text, MediaInfo, MediaView};
use crate::text::{blank, is_blank, same};

verus! {

/// The programs, as far as they are known.
#[derive(Debug)]
pub struct Binaries {
    pub ffmpeg: BinaryInfo,
    pub ffvship: BinaryInfo,
    pub ffprobe: Option<String>,
    /// Whether they are still being asked.
    pub probing: bool,
}

pub struct BinariesView {
    pub ffmpeg: BinaryView,
    pub ffvship: BinaryView,
    pub ffprobe: Option<Seq<char>>,
    pub probing: bool,
}

impl View for Binaries {
    type V = BinariesView;

    open spec fn view(&self) -> BinariesView {
        BinariesView {
            ffmpeg: self.ffmpeg@,
            ffvship: self.ffvship@,
            ffprobe: opt_text(self.ffprobe),
            probing: self.probing,
        }
    }
}

/// What is known of the reference and of its picture.
#[derive(Debug)]
pub struct RefProbe {
    /// The line that tells of the reference.
    pub info: String,
    pub info_data: Option<MediaInfo>,
    /// The path that `info_data` is of.
    pub info_path: String,
    /// The path that was asked about last.
    pub last_spawned: String,
    /// Which answer counts.
    pub generation: u64,
    /// A file whose probe timed out, to be told once.
    pub timeout_note: Option<String>,
    pub thumb_loading: bool,
    pub last_thumb_path: String,
    pub thumb_generation: u64,
}

pub struct RefView {
    pub info: Seq<char>,
    pub info_data: Option<MediaView>,
    pub info_path: Seq<char>,
    pub last_spawned: Seq<char>,
    pub generation: u64,
    pub timeout_note: Option<Seq<char>>,
    pub thumb_loading: bool,
    pub last_thumb_path: Seq<char>,
    pub thumb_generation: u64,
}

impl View for RefProbe {
    type V = RefView;

    open spec fn view(&self) -> RefView {
        RefView {
            info: self.info@,
            info_data: opt_media(self.info_data),
            info_path: self.info_path@,
            last_spawned: self.last_spawned@,
            generation: self.generation,
            timeout_note: opt_text(self.timeout_note),
            thumb_loading: self.thumb_loading,
            last_thumb_path: self.last_thumb_path@,
            thumb_generation: self.thumb_generation,
        }
    }
}

/// Nothing is known of the reference.
pub open spec fn no_reference() -> RefView {
    RefView {
        info: "Encoder: -unknown-, Frame: -unknown-, Bitrate: -unknown-, Duration: -unknown-"@,
        info_data: None,
        info_path: Seq::empty(),
        last_spawned: Seq::empty(),
        generation: 0,
        timeout_note: None,
        thumb_loading: false,
        last_thumb_path: Seq::empty(),
        thumb_generation: 0,
    }
}

impl Default for RefProbe {
    fn default() -> (r: RefProbe)
        ensures
            r@ == no_reference(),
    {
        RefProbe {
            info:
                "Encoder: -unknown-, Frame: -unknown-, Bitrate: -unknown-, Duration: -unknown-".to_owned(),
            info_data: None,
            info_path: String::new(),
            last_spawned: String::new(),
            generation: 0,
            timeout_note: None,
            thumb_loading: false,
            last_thumb_path: String::new(),
            thumb_generation: 0,
        }
    }
}

/// How a file is called in a note on a timeout, by its path and the last part
/// of it: the last part where there is one, else the path; never by nothing.
pub open spec fn timeout_name(path: Seq<char>, name: Option<Seq<char>>) -> Seq<char> {
    if name is Some && name->0.len() > 0 {
        name->0
    } else if path.len() > 0 {
        path
    } else {
        "(unknown file)"@
    }
}

/// How a file is called in a note on a timeout, given the last part of its
/// path.
pub fn timeout_name_of(path: &str, name: &Option<String>) -> (r: String)
    ensures
        r@ == timeout_name(path@, opt_text(*name)),
        r@.len() > 0,
{
    proof {
        reveal_strlit("(unknown file)");
    }
    if let Some(n) = name {
        if !n.as_str().is_empty() {
            return n.clone();
        }
    }
    if path.is_empty() {
        "(unknown file)".to_owned()
    } else {
        path.to_owned()
    }
}

/// How a file is called in a note on a timeout: by the last part of its path,
/// or by the path where it has none.
pub fn timeout_display(path: &str) -> (r: String)
    ensures
        r@ == timeout_name(path@, file_name(path@)),
        r@.len() > 0,
{
    let name = path_file_name(path);
    timeout_name_of(path, &name)
}

/// An answer from a probe.
#[derive(Debug)]
pub enum ProbeMsg {
    /// Of the reference.
    Reference { generation: u64, text: String, info: Option<MediaInfo>, timed_out: bool },
    /// Of a queued file.
    RowMedia {
        key: String,
        probe_gen: u64,
        media: String,
        tip: String,
        info: Option<MediaInfo>,
        timed_out: bool,
    },
}

/// The reference after an answer of it: an answer to an older question is
/// dropped.
pub open spec fn ref_told(
    r: RefView,
    generation: u64,
    text: Seq<char>,
    info: Option<MediaView>,
    timed_out: bool,
) -> RefView {
    if generation != r.generation {
        r
    } else {
        RefView {
            info: text,
            info_data: info,
            info_path: r.last_spawned,
            timeout_note: if timed_out {
                Some(timeout_name(r.last_spawned, file_name(r.last_spawned)))
            } else {
                r.timeout_note
            },
            ..r
        }
    }
}

/// The rows after an answer of one: it goes to the row with the key, and only
/// while that holds the token of the question.
pub open spec fn rows_told(
    rows: Seq<RowView>,
    key: Seq<char>,
    token: u64,
    media: Seq<char>,
    tip: Seq<char>,
    info: Option<MediaView>,
) -> Seq<RowView> {
    match keyed(rows, key, 0) {
        Some(i) => if rows[i].probe_gen == token {
            rows.update(i, RowView { media, media_tip: tip, info, ..rows[i] })
        } else {
            rows
        },
        None => rows,
    }
}

/// The note after an answer of a queued file.
pub open spec fn note_told(
    rows: Seq<RowView>,
    key: Seq<char>,
    token: u64,
    timed_out: bool,
    note: Option<Seq<char>>,
) -> Option<Seq<char>> {
    match keyed(rows, key, 0) {
        Some(i) => if rows[i].probe_gen == token && timed_out {
            Some(rows[i].display)
        } else {
            note
        },
        None => note,
    }
}

/// Takes an answer from a probe.
pub fn take_probe(reference: &mut RefProbe, queue: &mut QueueModel, msg: ProbeMsg)
    ensures
        match msg {
            ProbeMsg::Reference { generation, text, info, timed_out } => {
                &&& final(reference)@ == ref_told(
                    old(reference)@,
                    generation,
                    text@,
                    opt_media(info),
                    timed_out,
                )
                &&& final(queue)@ == old(queue)@
            },
            ProbeMsg::RowMedia { key, probe_gen, media, tip, info, timed_out } => {
                &&& final(queue)@ == (QueueView {
                    rows: rows_told(
                        old(queue)@.rows,
                        key@,
                        probe_gen,
                        media@,
                        tip@,
                        opt_media(info),
                    ),
                    ..old(queue)@
                })
                &&& final(reference)@ == (RefView {
                    timeout_note: note_told(
                        old(queue)@.rows,
                        key@,
                        probe_gen,
                        timed_out,
                        old(reference)@.timeout_note,
                    ),
                    ..old(reference)@
                })
            },
        },
        queue_ok(old(queue)@) ==> queue_ok(final(queue)@),
{
    match msg {
        ProbeMsg::Reference { generation, text, info, timed_out } => {
            if generation == reference.generation {
                reference.info = text;
                reference.info_data = info;
                reference.info_path = reference.last_spawned.clone();
                if timed_out {
                    reference.timeout_note = Some(
                        timeout_display(reference.last_spawned.as_str()),
                    );
                }
            }
        },
        ProbeMsg::RowMedia { key, probe_gen, media, tip, info, timed_out } => {
            let ghost q0 = queue@;
            if let Some(i) = find_row(&queue.rows, key.as_str()) {
                assert(q0.rows[i as int] == queue.rows@[i as int]@);
                if queue.rows[i].probe_gen == probe_gen {
                    if timed_out {
                        reference.timeout_note = Some(queue.rows[i].display.clone());
                    }
                    let ghost rows = queue.rows@;
                    let row = &mut queue.rows[i];
                    row.media = media;
                    row.media_tip = tip;
                    row.info = info;
                    assert(queue@.rows =~= rows_told(
                        q0.rows,
                        key@,
                        probe_gen,
                        media@,
                        tip@,
                        opt_media(info),
                    ));
                    proof {
                        if queue_ok(q0) {
                            assert forall|j: int| 0 <= j < queue@.rows.len() implies (
                            #[trigger] queue@.rows[j]).key == q0.rows[j].key
                                && queue@.rows[j].color_idx == q0.rows[j].color_idx && row_ok(
                                queue@.rows[j],
                            ) by {
                                assert(row_ok(q0.rows[j]));
                                lemma_same_cells_ok(q0.rows[j], queue@.rows[j]);
                            }
                            lemma_sound_by_rows(q0, queue@);
                        }
                    }
                }
            }
        },
    }
}

/// A late answer changes no row: neither one that was taken out, nor one that
/// was queued again since.
pub proof fn lemma_late_answer_is_dropped(
    rows: Seq<RowView>,
    key: Seq<char>,
    token: u64,
    media: Seq<char>,
    tip: Seq<char>,
    info: Option<MediaView>,
)
    requires
        forall|i: int|
            0 <= i < rows.len() && (#[trigger] rows[i]).key == key ==> rows[i].probe_gen != token,
    ensures
        rows_told(rows, key, token, media, tip, info) == rows,
{
    lemma_keyed(rows, key, 0);
}

/// What a look at the reference's path changes, and whether to ask about it.
pub open spec fn ref_looked(r: RefView, path: Seq<char>, is_file: bool, has_ffprobe: bool) -> (
    RefView,
    bool,
) {
    if path == r.last_spawned {
        (r, false)
    } else {
        let moved = RefView { last_spawned: path, generation: next_token(r.generation), ..r };
        match unprobed_text(blank(path), is_file, has_ffprobe) {
            Some(text) => (RefView { info: text, info_data: None, ..moved }, false),
            None => (RefView { info: "Probing…"@, ..moved }, true),
        }
    }
}

/// What a look at the reference's path changes of its picture, and whether to
/// ask for one.
pub open spec fn thumb_looked(r: RefView, path: Seq<char>, is_file: bool, has_ffmpeg: bool) -> (
    RefView,
    bool,
) {
    if path == r.last_thumb_path {
        (r, false)
    } else {
        let ask = !blank(path) && is_file && has_ffmpeg;
        (
            RefView {
                last_thumb_path: path,
                thumb_generation: next_token(r.thumb_generation),
                thumb_loading: ask,
                ..r
            },
            ask,
        )
    }
}

impl RefProbe {
    /// Looks at the reference's path: asks about a new one, unless it is clear
    /// without.
    pub fn refresh_ref_info(&mut self, path: &str, is_file: bool, has_ffprobe: bool) -> (ask: bool)
        ensures
            (final(self)@, ask) == ref_looked(old(self)@, path@, is_file, has_ffprobe),
    {
        if same(path, self.last_spawned.as_str()) {
            return false;
        }
        self.last_spawned = path.to_owned();
        self.generation = self.generation.wrapping_add(1);
        match unprobed_reference(path, is_file, has_ffprobe) {
            Some(text) => {
                self.info = text;
                self.info_data = None;
                false
            },
            None => {
                self.info = "Probing…".to_owned();
                true
            },
        }
    }

    /// Looks at the reference's path: drops the picture of another, and asks
    /// for a new one where there can be one.
    pub fn refresh_thumbnail(&mut self, path: &str, is_file: bool, has_ffmpeg: bool) -> (ask: bool)
        ensures
            (final(self)@, ask) == thumb_looked(old(self)@, path@, is_file, has_ffmpeg),
    {
        if same(path, self.last_thumb_path.as_str()) {
            return false;
        }
        self.last_thumb_path = path.to_owned();
        self.thumb_generation = self.thumb_generation.wrapping_add(1);
        let ask = !is_blank(path) && is_file && has_ffmpeg;
        self.thumb_loading = ask;
        ask
    }

    /// Whether a picture that came counts.
    pub fn take_thumb(&mut self, generation: u64) -> (counts: bool)
        ensures
            counts == (generation == old(self)@.thumb_generation),
            final(self)@ == (if counts {
                RefView { thumb_loading: false, ..old(self)@ }
            } else {
                old(self)@
            }),
    {
        if generation != self.thumb_generation {
            return false;
        }
        self.thumb_loading = false;
        true
    }

    /// Has the reference and its picture asked for again.
    pub fn forget_asked(&mut self)
        ensures
            final(self)@ == (RefView {
                last_spawned: Seq::empty(),
                last_thumb_path: Seq::empty(),
                ..old(self)@
            }),
    {
        self.last_spawned = String::new();
        self.last_thumb_path = String::new();
    }

    /// The same, with all answers that are under way dropped.
    pub fn rearm(&mut self)
        ensures
            final(self)@ == (RefView {
                last_spawned: Seq::empty(),
                generation: next_token(old(self)@.generation),
                last_thumb_path: Seq::empty(),
                thumb_generation: next_token(old(self)@.thumb_generation),
                ..old(self)@
            }),
    {
        self.generation = self.generation.wrapping_add(1);
        self.thumb_generation = self.thumb_generation.wrapping_add(1);
        self.forget_asked();
    }
}

/// Once the programs are known, no answer to a question from before counts.
pub proof fn lemma_rearmed_drops_answers(
    r: RefView,
    text: Seq<char>,
    info: Option<MediaView>,
    timed_out: bool,
)
    ensures
        ({
            let after = RefView { generation: next_token(r.generation), ..r };
            ref_told(after, r.generation, text, info, timed_out) == after
        }),
{
}

// ---- Rows ----

/// A row that waits for an answer.
pub open spec fn waiting(r: RowView, token: u64) -> RowView {
    RowView { probe_gen: token, media: "Probing…"@, media_tip: "Probing…"@, ..r }
}

/// The questions about all rows.
pub open spec fn all_jobs(rows: Seq<RowView>) -> Seq<JobView> {
    rows.map_values(|r: RowView| JobView { key: r.key, path: r.path, token: r.probe_gen })
}

/// Rows of which nothing is known get new tokens, one after another.
pub struct Reprobe {
    pub rows: Seq<RowView>,
    pub token: u64,
    pub jobs: Seq<JobView>,
}

pub open spec fn reprobed(rows: Seq<RowView>, token: u64) -> Reprobe
    decreases rows.len(),
{
    if rows.len() == 0 {
        Reprobe { rows, token, jobs: Seq::empty() }
    } else {
        let head = reprobed(rows.drop_last(), token);
        let r = rows.last();
        if r.info is None {
            Reprobe {
                rows: head.rows.push(waiting(r, head.token)),
                token: next_token(head.token),
                jobs: head.jobs.push(JobView { key: r.key, path: r.path, token: head.token }),
            }
        } else {
            Reprobe { rows: head.rows.push(r), ..head }
        }
    }
}

proof fn lemma_reprobed(rows: Seq<RowView>, token: u64)
    ensures
        reprobed(rows, token).rows.len() == rows.len(),
        forall|i: int|
            0 <= i < rows.len() ==> {
                let r = #[trigger] reprobed(rows, token).rows[i];
                &&& r.key == rows[i].key
                &&& r.color_idx == rows[i].color_idx
                &&& r.cells == rows[i].cells
                &&& r.caches == rows[i].caches
                &&& rows[i].info is Some ==> r == rows[i]
            },
    decreases rows.len(),
{
    if rows.len() > 0 {
        lemma_reprobed(rows.drop_last(), token);
    }
}

/// Asking again leaves rows of which something is known as they are, and
/// results alone.
pub proof fn lemma_reprobing_keeps_known(rows: Seq<RowView>, token: u64, i: int)
    requires
        0 <= i < rows.len(),
    ensures
        reprobed(rows, token).rows.len() == rows.len(),
        reprobed(rows, token).rows[i].cells == rows[i].cells,
        rows[i].info is Some ==> reprobed(rows, token).rows[i] == rows[i],
{
    lemma_reprobed(rows, token);
}

impl QueueModel {
    /// Has all rows asked about again.
    pub fn refresh_media_info(&mut self) -> (jobs: Vec<ProbeJob>)
        ensures
            final(self)@ == (QueueView {
                rows: old(self)@.rows.map_values(|r: RowView| waiting(r, r.probe_gen)),
                ..old(self)@
            }),
            job_views(jobs@) == all_jobs(old(self)@.rows),
    {
        let ghost q0 = self@;
        let mut jobs: Vec<ProbeJob> = Vec::new();
        let n: usize = self.rows.len();
        let mut i: usize = 0;
        while i < n
            invariant
                i <= n,
                n == self.rows@.len(),
                n == q0.rows.len(),
                self@ == (QueueView { rows: self@.rows, ..q0 }),
                jobs@.len() == i,
                forall|j: int| 0 <= j < i ==> (#[trigger] jobs@[j])@ == all_jobs(q0.rows)[j],
                forall|j: int|
                    0 <= j < i ==> (#[trigger] self.rows@[j])@ == waiting(
                        q0.rows[j],
                        q0.rows[j].probe_gen,
                    ),
                forall|j: int| i <= j < n ==> (#[trigger] self.rows@[j])@ == q0.rows[j],
            decreases n - i,
        {
            assert(self.rows@[i as int]@ == q0.rows[i as int]);
            let row = &mut self.rows[i];
            row.media = "Probing…".to_owned();
            row.media_tip = "Probing…".to_owned();
            jobs.push(
                ProbeJob { key: row.key.clone(), path: row.path.clone(), token: row.probe_gen },
            );
            i += 1;
        }
        assert(self@.rows =~= q0.rows.map_values(|r: RowView| waiting(r, r.probe_gen)));
        assert(job_views(jobs@) =~= all_jobs(q0.rows));
        jobs
    }

    /// Has the rows of which nothing is known asked about, with new tokens.
    pub fn reprobe_unknown(&mut self) -> (jobs: Vec<ProbeJob>)
        ensures
            ({
                let r = reprobed(old(self)@.rows, old(self)@.next_probe_seq);
                &&& final(self)@ == (QueueView {
                    rows: r.rows,
                    next_probe_seq: r.token,
                    ..old(self)@
                })
                &&& job_views(jobs@) == r.jobs
            }),
            queue_ok(old(self)@) ==> queue_ok(final(self)@),
    {
        let ghost q0 = self@;
        let ghost t0 = self.next_probe_seq;
        let mut jobs: Vec<ProbeJob> = Vec::new();
        let n: usize = self.rows.len();
        let mut i: usize = 0;
        assert(q0.rows.take(0) =~= Seq::<RowView>::empty());
        assert(job_views(jobs@) =~= Seq::<JobView>::empty());
        while i < n
            invariant
                i <= n,
                n == self.rows@.len(),
                n == q0.rows.len(),
                t0 == q0.next_probe_seq,
                self@ == (QueueView {
                    rows: self@.rows,
                    next_probe_seq: self.next_probe_seq,
                    ..q0
                }),
                reprobed(q0.rows.take(i as int), t0).rows.len() == i,
                reprobed(q0.rows.take(i as int), t0).token == self.next_probe_seq,
                reprobed(q0.rows.take(i as int), t0).jobs == job_views(jobs@),
                forall|j: int|
                    0 <= j < i ==> (#[trigger] self.rows@[j])@ == reprobed(
                        q0.rows.take(i as int),
                        t0,
                    ).rows[j],
                forall|j: int| i <= j < n ==> (#[trigger] self.rows@[j])@ == q0.rows[j],
            decreases n - i,
        {
            let ghost head = reprobed(q0.rows.take(i as int), t0);
            assert(q0.rows.take(i + 1).drop_last() =~= q0.rows.take(i as int));
            assert(q0.rows.take(i + 1).last() == q0.rows[i as int]);
            assert(self.rows@[i as int]@ == q0.rows[i as int]);
            if self.rows[i].info.is_none() {
                let token: u64 = self.next_probe_seq;
                self.next_probe_seq = token.wrapping_add(1);
                let row = &mut self.rows[i];
                row.probe_gen = token;
                row.media = "Probing…".to_owned();
                row.media_tip = "Probing…".to_owned();
                let ghost before = jobs@;
                jobs.push(ProbeJob { key: row.key.clone(), path: row.path.clone(), token });
                assert(job_views(jobs@) =~= job_views(before).push(jobs@.last()@));
            }
            i += 1;
        }
        assert(q0.rows.take(i as int) =~= q0.rows);
        assert(self@.rows =~= reprobed(q0.rows, t0).rows);
        proof {
            lemma_reprobed(q0.rows, t0);
            if queue_ok(q0) {
                assert forall|j: int| 0 <= j < self@.rows.len() implies (
                #[trigger] self@.rows[j]).key == q0.rows[j].key && self@.rows[j].color_idx
                    == q0.rows[j].color_idx && row_ok(self@.rows[j]) by {
                    assert(row_ok(q0.rows[j]));
                    lemma_same_cells_ok(q0.rows[j], self@.rows[j]);
                }
                lemma_sound_by_rows(q0, self@);
            }
        }
        jobs
    }
}

// ---- Programs ----

pub open spec fn supports(b: BinariesView, kind: MetricKind) -> bool {
    if kind.by_ffvship() {
        b.ffvship.usable
    } else {
        b.ffmpeg.supported_metrics.contains(kind)
    }
}

/// The ticks that the programs can honour; while they are being asked, all.
pub open spec fn honoured(m: MetricToggles, b: BinariesView) -> MetricToggles {
    if b.probing {
        m
    } else {
        MetricToggles {
            psnr: m.psnr && supports(b, MetricKind::Psnr),
            ssim: m.ssim && supports(b, MetricKind::Ssim),
            vmaf: m.vmaf && supports(b, MetricKind::Vmaf),
            xpsnr: m.xpsnr && supports(b, MetricKind::Xpsnr),
            ssim2: m.ssim2 && supports(b, MetricKind::Ssim2),
            butteraugli: m.butteraugli && supports(b, MetricKind::But),
            cvvdp: m.cvvdp && supports(b, MetricKind::Cvvdp),
        }
    }
}

pub fn has_kind(v: &Vec<MetricKind>, kind: MetricKind) -> (r: bool)
    ensures
        r == v@.contains(kind),
{
    let mut i: usize = 0;
    while i < v.len()
        invariant
            i <= v@.len(),
            forall|j: int| 0 <= j < i ==> #[trigger] v@[j] != kind,
        decreases v.len() - i,
    {
        if v[i] == kind {
            assert(v@[i as int] == kind);
            return true;
        }
        i += 1;
    }
    false
}

/// Clears the ticks that the programs cannot honour.
pub fn untick_unsupported_metrics(metrics: &mut MetricToggles, b: &Binaries)
    ensures
        *final(metrics) == honoured(*old(metrics), b@),
{
    if b.probing {
        return;
    }
    let known = &b.ffmpeg.supported_metrics;
    if !has_kind(known, MetricKind::Psnr) {
        metrics.psnr = false;
    }
    if !has_kind(known, MetricKind::Ssim) {
        metrics.ssim = false;
    }
    if !has_kind(known, MetricKind::Vmaf) {
        metrics.vmaf = false;
    }
    if !has_kind(known, MetricKind::Xpsnr) {
        metrics.xpsnr = false;
    }
    if !b.ffvship.usable {
        metrics.ssim2 = false;
        metrics.butteraugli = false;
        metrics.cvvdp = false;
    }
}

/// Clearing ticks twice is clearing them once, and none is ever set.
pub proof fn lemma_unticking_twice(m: MetricToggles, b: BinariesView, kind: MetricKind)
    ensures
        honoured(honoured(m, b), b) == honoured(m, b),
        honoured(m, b).ticked(kind) ==> m.ticked(kind),
        !b.probing && honoured(m, b).ticked(kind) ==> supports(b, kind),
{
}

/// Takes what the programs told of themselves: ticks that they cannot honour
/// are cleared, and whatever was asked without them is asked again.
pub fn take_binaries(
    b: &mut Binaries,
    metrics: &mut MetricToggles,
    reference: &mut RefProbe,
    queue: &mut QueueModel,
    ffmpeg: BinaryInfo,
    ffvship: BinaryInfo,
    ffprobe: Option<String>,
) -> (jobs: Vec<ProbeJob>)
    ensures
        final(b)@ == (BinariesView {
            ffmpeg: ffmpeg@,
            ffvship: ffvship@,
            ffprobe: opt_text(ffprobe),
            probing: false,
        }),
        *final(metrics) == honoured(*old(metrics), final(b)@),
        final(reference)@ == (RefView {
            last_spawned: Seq::empty(),
            generation: next_token(old(reference)@.generation),
            last_thumb_path: Seq::empty(),
            thumb_generation: next_token(old(reference)@.thumb_generation),
            ..old(reference)@
        }),
        ({
            let r = reprobed(old(queue)@.rows, old(queue)@.next_probe_seq);
            &&& final(queue)@ == (QueueView {
                rows: r.rows,
                next_probe_seq: r.token,
                ..old(queue)@
            })
            &&& job_views(jobs@) == r.jobs
        }),
        queue_ok(old(queue)@) ==> queue_ok(final(queue)@),
{
    b.ffmpeg = ffmpeg;
    b.ffvship = ffvship;
    b.ffprobe = ffprobe;
    b.probing = false;
    untick_unsupported_metrics(metrics, b);
    reference.rearm();
    queue.reprobe_unknown()
}

/// The reference is asked about where its path has changed, is not blank, names
/// a file, and there is an ffprobe. A changed path makes every older answer
/// void, and an unchanged one changes nothing.
pub proof fn lemma_changed_reference_is_asked(
    r: RefView,
    path: Seq<char>,
    is_file: bool,
    has_ffprobe: bool,
)
    ensures
        ({
            let (after, ask) = ref_looked(r, path, is_file, has_ffprobe);
            &&& ask <==> path != r.last_spawned && !blank(path) && is_file && has_ffprobe
            &&& path == r.last_spawned ==> after == r
            &&& path != r.last_spawned ==> after.last_spawned == path && after.generation != r.generation
            &&& path != r.last_spawned && !ask ==> after.info_data is None
            &&& path != r.last_spawned && !blank(path) && !is_file ==> after.info == "File not found"@
            &&& path != r.last_spawned && !blank(path) && is_file && !has_ffprobe ==> after.info
                == "ffprobe not found"@
        }),
        ({
            let (after, ask) = thumb_looked(r, path, is_file, has_ffprobe);
            &&& ask <==> path != r.last_thumb_path && !blank(path) && is_file && has_ffprobe
            &&& path == r.last_thumb_path ==> after == r
            &&& path != r.last_thumb_path ==> after.last_thumb_path == path && after.thumb_generation
                != r.thumb_generation && after.thumb_loading == ask
        }),
{
}

/// An answer to the question that was asked last is taken over, with the path
/// that was asked about. A timeout is noted with the name of the file, and no
/// answer takes a note away.
pub proof fn lemma_answers_reach_reference(
    r: RefView,
    text: Seq<char>,
    info: Option<MediaView>,
    timed_out: bool,
)
    ensures
        ({
            let after = ref_told(r, r.generation, text, info, timed_out);
            &&& after.info == text && after.info_data == info && after.info_path == r.last_spawned
            &&& !timed_out ==> after.timeout_note == r.timeout_note
            &&& timed_out && file_name(r.last_spawned) is Some && file_name(r.last_spawned)->0.len() > 0
                ==> after.timeout_note == file_name(r.last_spawned)
            &&& timed_out ==> after.timeout_note is Some && after.timeout_note->0.len() > 0
            &&& after.generation == r.generation
        }),
{
    reveal_strlit("(unknown file)");
}

/// An answer reaches the row with its key and its token, which then tells it;
/// all other rows stay as they are, and so does everything else of that row.
pub proof fn lemma_answers_reach_their_row(
    rows: Seq<RowView>,
    key: Seq<char>,
    token: u64,
    media: Seq<char>,
    tip: Seq<char>,
    info: Option<MediaView>,
    i: int,
)
    requires
        0 <= i < rows.len(),
        forall|a: int, b: int|
            0 <= a < b < rows.len() ==> (#[trigger] rows[a]).key != (#[trigger] rows[b]).key,
    ensures
        ({
            let after = rows_told(rows, key, token, media, tip, info);
            &&& after.len() == rows.len()
            &&& rows[i].key == key && rows[i].probe_gen == token ==> after[i].media == media
                && after[i].media_tip == tip && after[i].info == info && after[i].cells == rows[i].cells
                && after[i].included == rows[i].included
            &&& rows[i].key != key || rows[i].probe_gen != token ==> after[i] == rows[i]
        }),
{
    lemma_keyed(rows, key, 0);
    match keyed(rows, key, 0) {
        Some(j) => {
            if j < i {
                assert(rows[j].key != rows[i].key);
            } else if i < j {
                assert(rows[i].key != rows[j].key);
            }
        },
        None => {},
    }
}

/// A tick stays where its program can honour it, and while the programs are
/// being asked; it goes where they cannot.
pub proof fn lemma_ticks_stay_where_honoured(m: MetricToggles, b: BinariesView, kind: MetricKind)
    ensures
        ({
            let can = if kind is Ssim2 || kind is But || kind is Cvvdp {
                b.ffvship.usable
            } else {
                b.ffmpeg.supported_metrics.contains(kind)
            };
            honoured(m, b).ticked(kind) <==> m.ticked(kind) && (b.probing || can)
        }),
{
}

/// A row of which nothing is known is asked about again, under the token that
/// it then holds.
pub proof fn lemma_unknown_rows_are_asked_again(rows: Seq<RowView>, token: u64, i: int)
    requires
        0 <= i < rows.len(),
        rows[i].info is None,
    ensures
        ({
            let after = reprobed(rows, token);
            after.jobs.contains(
                JobView {
                    key: rows[i].key,
                    path: rows[i].path,
                    token: after.rows[i].probe_gen,
                },
            )
        }),
    decreases rows.len(),
{
    let head = rows.drop_last();
    let before = reprobed(head, token);
    let after = reprobed(rows, token);
    lemma_reprobed(head, token);
    if i < head.len() {
        lemma_unknown_rows_are_asked_again(head, token, i);
        let job = JobView {
            key: rows[i].key,
            path: rows[i].path,
            token: before.rows[i].probe_gen,
        };
        let k = choose|k: int| 0 <= k < before.jobs.len() && before.jobs[k] == job;
        assert(after.jobs[k] == job);
        assert(after.rows[i] == before.rows[i]);
    } else {
        assert(after.jobs[before.jobs.len() as int] == after.jobs.last());
    }
}

} // verus!
