//! The queue as a whole: which files it holds, and what is done to all of
//! them at once.
use vstd::prelude::*;
use crate::app::paths::{display_names, key_of, names_of, norm_key, pieces_of};
use crate::app::queue::{
    clicked, click, no_cache, plain_ranks, refresh_ranks, reranked, row_ok, row_ranks, row_views,
    scored, with_ranks, CacheView, CachedStats, QueueRow, RowView, SortColumn, SortDir,
};
use crate::metrics::cell::{finished, CellView, MetricCell};
use crate::metrics::ffmpeg::{all_kinds, MetricKind};
use crate::outside::opt_text;
use crate::text::{put, same, texts};

verus! {

/// The queue and how its table stands.
#[derive(Debug)]
pub struct QueueModel {
    pub rows: Vec<QueueRow>,
    /// The plot colour of the next file; none is given twice.
    pub next_color_idx: usize,
    /// The token of the next probe.
    pub next_probe_seq: u64,
    pub sort_spec: Option<(SortColumn, SortDir)>,
    /// The row whose box was clicked last.
    pub include_anchor: Option<usize>,
    /// The row that was selected last.
    pub selected_anchor: Option<usize>,
}

#[verifier::ext_equal]
pub struct QueueView {
    pub rows: Seq<RowView>,
    pub next_color_idx: usize,
    pub next_probe_seq: u64,
    pub sort_spec: Option<(SortColumn, SortDir)>,
    pub include_anchor: Option<usize>,
    pub selected_anchor: Option<usize>,
}

impl View for QueueModel {
    type V = QueueView;

    open spec fn view(&self) -> QueueView {
        QueueView {
            rows: row_views(self.rows@),
            next_color_idx: self.next_color_idx,
            next_probe_seq: self.next_probe_seq,
            sort_spec: self.sort_spec,
            include_anchor: self.include_anchor,
            selected_anchor: self.selected_anchor,
        }
    }
}

/// A sound queue: every row is, no file is queued twice, and no two rows have
/// one colour, nor one that is still to be given.
pub open spec fn queue_ok(q: QueueView) -> bool {
    &&& forall|i: int| 0 <= i < q.rows.len() ==> row_ok(#[trigger] q.rows[i])
    &&& forall|i: int, j: int|
        0 <= i < j < q.rows.len() ==> (#[trigger] q.rows[i]).key != (#[trigger] q.rows[j]).key
    &&& forall|i: int| 0 <= i < q.rows.len() ==> (#[trigger] q.rows[i]).color_idx < q.next_color_idx
    &&& forall|i: int, j: int|
        0 <= i < j < q.rows.len() ==> (#[trigger] q.rows[i]).color_idx != (
        #[trigger] q.rows[j]).color_idx
}

/// The queue of a fresh start.
pub open spec fn empty_queue() -> QueueView {
    QueueView {
        rows: Seq::empty(),
        next_color_idx: 0,
        next_probe_seq: 0,
        sort_spec: None,
        include_anchor: None,
        selected_anchor: None,
    }
}

impl Default for QueueModel {
    fn default() -> (r: QueueModel)
        ensures
            r@ == empty_queue(),
            queue_ok(r@),
    {
        let r = QueueModel {
            rows: Vec::new(),
            next_color_idx: 0,
            next_probe_seq: 0,
            sort_spec: None,
            include_anchor: None,
            selected_anchor: None,
        };
        assert(r@ =~= empty_queue());
        r
    }
}

/// A file to probe, with the token that its row holds.
#[derive(Debug)]
pub struct ProbeJob {
    pub key: String,
    pub path: String,
    pub token: u64,
}

pub struct JobView {
    pub key: Seq<char>,
    pub path: Seq<char>,
    pub token: u64,
}

impl View for ProbeJob {
    type V = JobView;

    open spec fn view(&self) -> JobView {
        JobView { key: self.key@, path: self.path@, token: self.token }
    }
}

pub open spec fn job_views(v: Seq<ProbeJob>) -> Seq<JobView> {
    v.map_values(|j: ProbeJob| j@)
}

// ---- Finding rows ----

/// The first row from `from` on with a key.
pub open spec fn keyed(rows: Seq<RowView>, key: Seq<char>, from: int) -> Option<int>
    decreases rows.len() - from,
{
    if from < 0 || from >= rows.len() {
        None
    } else if rows[from].key == key {
        Some(from)
    } else {
        keyed(rows, key, from + 1)
    }
}

pub proof fn lemma_keyed(rows: Seq<RowView>, key: Seq<char>, from: int)
    requires
        0 <= from,
    ensures
        match keyed(rows, key, from) {
            Some(i) => from <= i < rows.len() && rows[i].key == key,
            None => forall|i: int| from <= i < rows.len() ==> (#[trigger] rows[i]).key != key,
        },
    decreases rows.len() - from,
{
    if from < rows.len() && rows[from].key != key {
        lemma_keyed(rows, key, from + 1);
    }
}

pub fn find_row(rows: &Vec<QueueRow>, key: &str) -> (r: Option<usize>)
    ensures
        match r {
            Some(i) => i < rows@.len() && keyed(row_views(rows@), key@, 0) == Some(i as int),
            None => keyed(row_views(rows@), key@, 0) is None,
        },
{
    let mut i: usize = 0;
    while i < rows.len()
        invariant
            i <= rows@.len(),
            keyed(row_views(rows@), key@, 0) == keyed(row_views(rows@), key@, i as int),
        decreases rows.len() - i,
    {
        assert(row_views(rows@)[i as int] == rows@[i as int]@);
        if same(rows[i].key.as_str(), key) {
            return Some(i);
        }
        i += 1;
    }
    None
}

// ---- Adding files ----

/// A file with its key.
#[derive(Debug)]
pub struct KeyedPath {
    pub path: String,
    pub key: String,
}

pub struct KeyedView {
    pub path: Seq<char>,
    pub key: Seq<char>,
}

impl View for KeyedPath {
    type V = KeyedView;

    open spec fn view(&self) -> KeyedView {
        KeyedView { path: self.path@, key: self.key@ }
    }
}

pub open spec fn keyed_views(v: Seq<KeyedPath>) -> Seq<KeyedView> {
    v.map_values(|f: KeyedPath| f@)
}

/// A row that was just queued.
pub open spec fn fresh_row(f: KeyedView, color: usize, token: u64) -> RowView {
    RowView {
        path: f.path,
        key: f.key,
        display: Seq::empty(),
        included: true,
        color_idx: color,
        probe_gen: token,
        selected: false,
        media: "Probing…"@,
        media_tip: "Probing…"@,
        info: None,
        cells: Seq::new(7, |i: int| CellView::Idle),
        caches: Seq::new(7, |i: int| no_cache()),
    }
}

fn fresh_row_of(f: &KeyedPath, color: usize, token: u64) -> (r: QueueRow)
    ensures
        r@ == fresh_row(f@, color, token),
{
    let r = QueueRow {
        path: f.path.clone(),
        key: f.key.clone(),
        display: String::new(),
        included: true,
        color_idx: color,
        probe_gen: token,
        selected: false,
        media: "Probing…".to_owned(),
        media_tip: "Probing…".to_owned(),
        info: None,
        psnr: MetricCell::Idle,
        ssim: MetricCell::Idle,
        vmaf: MetricCell::Idle,
        xpsnr: MetricCell::Idle,
        ssim2: MetricCell::Idle,
        butter: MetricCell::Idle,
        cvvdp: MetricCell::Idle,
        psnr_cache: CachedStats::default(),
        ssim_cache: CachedStats::default(),
        vmaf_cache: CachedStats::default(),
        xpsnr_cache: CachedStats::default(),
        ssim2_cache: CachedStats::default(),
        butter_cache: CachedStats::default(),
        cvvdp_cache: CachedStats::default(),
    };
    assert(r@ =~= fresh_row(f@, color, token));
    r
}

/// The token after another; tokens start over where they end.
pub open spec fn next_token(t: u64) -> u64 {
    if t == u64::MAX {
        0
    } else {
        (t + 1) as u64
    }
}

/// A queue while files are added to it, and the probes that they call for.
#[verifier::ext_equal]
pub struct Adding {
    pub rows: Seq<RowView>,
    pub color: int,
    pub token: u64,
    pub jobs: Seq<JobView>,
}

/// One more file: a new row at the end, unless it is queued already.
pub open spec fn add_one(a: Adding, f: KeyedView) -> Adding {
    if keyed(a.rows, f.key, 0) is Some {
        a
    } else {
        Adding {
            rows: a.rows.push(fresh_row(f, a.color as usize, a.token)),
            color: a.color + 1,
            token: next_token(a.token),
            jobs: a.jobs.push(JobView { key: f.key, path: f.path, token: a.token }),
        }
    }
}

/// All files, one after another.
pub open spec fn add_all(a: Adding, files: Seq<KeyedView>) -> Adding
    decreases files.len(),
{
    if files.len() == 0 {
        a
    } else {
        add_one(add_all(a, files.drop_last()), files.last())
    }
}

pub open spec fn adding(q: QueueView) -> Adding {
    Adding {
        rows: q.rows,
        color: q.next_color_idx as int,
        token: q.next_probe_seq,
        jobs: Seq::empty(),
    }
}

/// A queue with files added.
pub open spec fn with_files(q: QueueView, files: Seq<KeyedView>) -> QueueView {
    let a = add_all(adding(q), files);
    QueueView {
        rows: a.rows,
        next_color_idx: a.color as usize,
        next_probe_seq: a.token,
        ..q
    }
}

proof fn lemma_add_grows(a: Adding, files: Seq<KeyedView>)
    ensures
        a.rows.len() <= add_all(a, files).rows.len(),
        a.color <= add_all(a, files).color <= a.color + files.len(),
        forall|i: int| 0 <= i < a.rows.len() ==> add_all(a, files).rows[i] == a.rows[i],
    decreases files.len(),
{
    if files.len() > 0 {
        lemma_add_grows(a, files.drop_last());
    }
}

/// Adding leaves the rows that were there where they are.
pub proof fn lemma_adding_keeps_rows(q: QueueView, files: Seq<KeyedView>, i: int)
    requires
        0 <= i < q.rows.len(),
    ensures
        i < with_files(q, files).rows.len(),
        with_files(q, files).rows[i] == q.rows[i],
{
    lemma_add_grows(adding(q), files);
}

proof fn lemma_fresh_ok(f: KeyedView, color: usize, token: u64)
    ensures
        row_ok(fresh_row(f, color, token)),
{
    let r = fresh_row(f, color, token);
    assert forall|k: MetricKind| (#[trigger] r.cache(k)).stats is Some <==> finished(r.cell(k)) by {
        assert(0 <= k.place() < 7);
    }
}

pub open spec fn adding_ok(a: Adding) -> bool {
    &&& 0 <= a.color
    &&& forall|i: int| 0 <= i < a.rows.len() ==> row_ok(#[trigger] a.rows[i])
    &&& forall|i: int, j: int|
        0 <= i < j < a.rows.len() ==> (#[trigger] a.rows[i]).key != (#[trigger] a.rows[j]).key
    &&& forall|i: int| 0 <= i < a.rows.len() ==> (#[trigger] a.rows[i]).color_idx < a.color
    &&& forall|i: int, j: int|
        0 <= i < j < a.rows.len() ==> (#[trigger] a.rows[i]).color_idx != (
        #[trigger] a.rows[j]).color_idx
}

proof fn lemma_add_ok(a: Adding, files: Seq<KeyedView>)
    requires
        adding_ok(a),
        a.color + files.len() <= usize::MAX,
    ensures
        adding_ok(add_all(a, files)),
    decreases files.len(),
{
    if files.len() > 0 {
        lemma_add_ok(a, files.drop_last());
        lemma_add_grows(a, files.drop_last());
        let b = add_all(a, files.drop_last());
        let f = files.last();
        lemma_keyed(b.rows, f.key, 0);
        lemma_fresh_ok(f, b.color as usize, b.token);
    }
}

/// Adding files keeps a queue sound: none is queued twice, and each new row
/// has a colour of its own.
pub proof fn lemma_adding_is_sound(q: QueueView, files: Seq<KeyedView>)
    requires
        queue_ok(q),
        q.next_color_idx + files.len() <= usize::MAX,
    ensures
        queue_ok(with_files(q, files)),
{
    lemma_add_ok(adding(q), files);
    lemma_add_grows(adding(q), files);
}

proof fn lemma_all_queued(a: Adding, files: Seq<KeyedView>, i: int)
    requires
        0 <= i < files.len(),
    ensures
        exists|j: int|
            0 <= j < add_all(a, files).rows.len() && (#[trigger] add_all(a, files).rows[j]).key
                == files[i].key,
    decreases files.len(),
{
    let head = files.drop_last();
    let b = add_all(a, head);
    let c = add_all(a, files);
    if i == files.len() - 1 {
        lemma_keyed(b.rows, files.last().key, 0);
        if keyed(b.rows, files.last().key, 0) is Some {
            let j = keyed(b.rows, files.last().key, 0)->0;
            assert(c.rows[j].key == files[i].key);
        } else {
            assert(c.rows[b.rows.len() as int].key == files[i].key);
        }
    } else {
        lemma_all_queued(a, head, i);
        assert(head[i] == files[i]);
        let j = choose|j: int|
            0 <= j < b.rows.len() && (#[trigger] b.rows[j]).key == files[i].key;
        assert(c.rows[j] == b.rows[j]);
    }
}

/// After files were added, each of them is in the queue.
pub proof fn lemma_added_files_are_queued(q: QueueView, files: Seq<KeyedView>, i: int)
    requires
        0 <= i < files.len(),
    ensures
        keyed(with_files(q, files).rows, files[i].key, 0) is Some,
{
    lemma_all_queued(adding(q), files, i);
    lemma_keyed(with_files(q, files).rows, files[i].key, 0);
}

proof fn lemma_add_known(a: Adding, files: Seq<KeyedView>)
    requires
        forall|i: int|
            0 <= i < files.len() ==> keyed(a.rows, (#[trigger] files[i]).key, 0) is Some,
    ensures
        add_all(a, files) == a,
    decreases files.len(),
{
    if files.len() > 0 {
        let head = files.drop_last();
        assert forall|i: int| 0 <= i < head.len() implies keyed(
            a.rows,
            (#[trigger] head[i]).key,
            0,
        ) is Some by {
            assert(head[i] == files[i]);
        }
        lemma_add_known(a, head);
        assert(keyed(a.rows, files[files.len() - 1].key, 0) is Some);
    }
}

/// Adding the same files again changes nothing and calls for no probe.
pub proof fn lemma_adding_twice(q: QueueView, files: Seq<KeyedView>)
    requires
        q.next_color_idx + files.len() <= usize::MAX,
    ensures
        with_files(with_files(q, files), files) == with_files(q, files),
        add_all(adding(with_files(q, files)), files).jobs.len() == 0,
{
    let p = with_files(q, files);
    assert forall|i: int| 0 <= i < files.len() implies keyed(
        p.rows,
        (#[trigger] files[i]).key,
        0,
    ) is Some by {
        lemma_added_files_are_queued(q, files, i);
    }
    lemma_add_known(adding(p), files);
}

// ---- Names ----

/// The rows with other names.
pub open spec fn named(rows: Seq<RowView>, names: Seq<Seq<char>>) -> Seq<RowView> {
    rows.map(|i: int, r: RowView| RowView { display: names[i], ..r })
}

pub open spec fn paths_of_rows(rows: Seq<RowView>) -> Seq<Seq<char>> {
    rows.map_values(|r: RowView| r.path)
}

/// The names that tell the rows apart.
pub open spec fn row_names(rows: Seq<RowView>, sep: Seq<char>) -> Seq<Seq<char>> {
    names_of(pieces_of(paths_of_rows(rows), sep), sep)
}

/// A queue with its names renewed; the rows may have moved, so no row is the
/// last clicked one any more.
pub open spec fn renamed(q: QueueView, names: Seq<Seq<char>>) -> QueueView {
    QueueView {
        rows: named(q.rows, names),
        include_anchor: None,
        selected_anchor: None,
        ..q
    }
}

/// Naming rows keeps a queue sound.
pub proof fn lemma_renaming_is_sound(q: QueueView, names: Seq<Seq<char>>)
    requires
        queue_ok(q),
    ensures
        queue_ok(renamed(q, names)),
{
    let p = renamed(q, names);
    assert forall|i: int| 0 <= i < p.rows.len() implies row_ok(#[trigger] p.rows[i]) by {
        lemma_same_cells_ok(q.rows[i], p.rows[i]);
    }
    assert forall|i: int, j: int| 0 <= i < j < p.rows.len() implies (#[trigger] p.rows[i]).key != (
    #[trigger] p.rows[j]).key by {
        assert(q.rows[i].key != q.rows[j].key);
    }
    assert forall|i: int, j: int| 0 <= i < j < p.rows.len() implies (
    #[trigger] p.rows[i]).color_idx != (#[trigger] p.rows[j]).color_idx by {
        assert(q.rows[i].color_idx != q.rows[j].color_idx);
    }
    assert forall|i: int| 0 <= i < p.rows.len() implies (#[trigger] p.rows[i]).color_idx
        < p.next_color_idx by {
        assert(q.rows[i].color_idx < q.next_color_idx);
    }
}

/// Rows with the same cells and what is kept of them are sound together.
pub proof fn lemma_same_cells_ok(a: RowView, b: RowView)
    requires
        row_ok(a),
        a.cells == b.cells,
        a.caches == b.caches,
    ensures
        row_ok(b),
{
    assert forall|k: MetricKind| (#[trigger] b.cache(k)).stats is Some <==> finished(b.cell(k)) by {
        assert(a.cache(k).stats is Some <==> finished(a.cell(k)));
    }
}

impl QueueModel {
    /// Queues files that are not queued yet, and tells which to probe.
    pub fn add_keyed(&mut self, files: &Vec<KeyedPath>) -> (jobs: Vec<ProbeJob>)
        requires
            old(self).next_color_idx + files@.len() <= usize::MAX,
        ensures
            final(self)@ == with_files(old(self)@, keyed_views(files@)),
            job_views(jobs@) == add_all(adding(old(self)@), keyed_views(files@)).jobs,
    {
        let ghost start = adding(self@);
        let ghost all = keyed_views(files@);
        let ghost q0 = self@;
        let mut jobs: Vec<ProbeJob> = Vec::new();
        let mut i: usize = 0;
        assert(all.take(0) =~= Seq::<KeyedView>::empty());
        assert(job_views(jobs@) =~= start.jobs);
        while i < files.len()
            invariant
                i <= files@.len(),
                all == keyed_views(files@),
                q0.next_color_idx + files@.len() <= usize::MAX,
                start == adding(q0),
                self.next_color_idx <= q0.next_color_idx + i,
                self@.sort_spec == q0.sort_spec,
                self@.include_anchor == q0.include_anchor,
                self@.selected_anchor == q0.selected_anchor,
                add_all(start, all.take(i as int)) == (Adding {
                    rows: self@.rows,
                    color: self.next_color_idx as int,
                    token: self.next_probe_seq,
                    jobs: job_views(jobs@),
                }),
            decreases files.len() - i,
        {
            let ghost here = add_all(start, all.take(i as int));
            assert(all.take(i + 1).drop_last() =~= all.take(i as int));
            assert(all.take(i + 1).last() == files@[i as int]@);
            if find_row(&self.rows, files[i].key.as_str()).is_none() {
                let color: usize = self.next_color_idx;
                self.next_color_idx = color + 1;
                let token: u64 = self.next_probe_seq;
                self.next_probe_seq = token.wrapping_add(1);
                self.rows.push(fresh_row_of(&files[i], color, token));
                let ghost before = jobs@;
                jobs.push(
                    ProbeJob { key: files[i].key.clone(), path: files[i].path.clone(), token },
                );
                assert(job_views(jobs@) =~= job_views(before).push(
                    JobView { key: files@[i as int]@.key, path: files@[i as int]@.path, token },
                ));
                assert(self@.rows =~= here.rows.push(fresh_row(files@[i as int]@, color, token)));
            }
            i += 1;
        }
        assert(all.take(i as int) =~= all);
        jobs
    }

    /// Gives the rows names, one for each.
    pub fn rename(&mut self, names: &Vec<String>)
        requires
            names@.len() == old(self).rows@.len(),
        ensures
            final(self)@ == renamed(old(self)@, texts(names@)),
    {
        let ghost q0 = self@;
        let n: usize = self.rows.len();
        let mut i: usize = 0;
        while i < n
            invariant
                i <= n,
                n == self.rows@.len(),
                n == names@.len(),
                n == q0.rows.len(),
                self@ == (QueueView { rows: self@.rows, ..q0 }),
                forall|j: int|
                    0 <= j < i ==> (#[trigger] self.rows@[j])@ == (RowView {
                        display: texts(names@)[j],
                        ..q0.rows[j]
                    }),
                forall|j: int| i <= j < n ==> (#[trigger] self.rows@[j])@ == q0.rows[j],
            decreases n - i,
        {
            let row = &mut self.rows[i];
            row.display = names[i].clone();
            i += 1;
        }
        self.include_anchor = None;
        self.selected_anchor = None;
        assert(self@.rows =~= named(q0.rows, texts(names@)));
    }

    /// Names the rows by the shortest ends of their paths that tell them
    /// apart.
    pub fn refresh_queue_names(&mut self, sep: &str)
        ensures
            final(self)@ == renamed(old(self)@, row_names(old(self)@.rows, sep@)),
    {
        let mut paths: Vec<String> = Vec::new();
        let ghost all = paths_of_rows(self@.rows);
        let mut i: usize = 0;
        assert(texts(paths@) =~= all.take(0));
        while i < self.rows.len()
            invariant
                i <= self.rows@.len(),
                all == paths_of_rows(self@.rows),
                texts(paths@) == all.take(i as int),
            decreases self.rows.len() - i,
        {
            assert(all[i as int] == self.rows@[i as int].path@);
            put(&mut paths, self.rows[i].path.as_str());
            i += 1;
            assert(texts(paths@) =~= all.take(i as int));
        }
        assert(all.take(i as int) =~= all);
        let names = display_names(&paths, sep);
        assert(texts(names@).len() == names@.len());
        self.rename(&names);
    }

    /// Queues files that are not queued yet, names all rows, and tells which
    /// files to probe.
    pub fn add_queue_files(
        &mut self,
        paths: &Vec<String>,
        cwd: &Option<String>,
        windows: bool,
        sep: &str,
    ) -> (jobs: Vec<ProbeJob>)
        requires
            old(self).next_color_idx + paths@.len() <= usize::MAX,
        ensures
            final(self)@ == with_paths(old(self)@, texts(paths@), opt_text(*cwd), windows, sep@),
            job_views(jobs@) == add_all(
                adding(old(self)@),
                with_keys(texts(paths@), opt_text(*cwd), windows),
            ).jobs,
            queue_ok(old(self)@) ==> queue_ok(final(self)@),
    {
        let ghost q0 = self@;
        let ghost want = with_keys(texts(paths@), opt_text(*cwd), windows);
        let mut files: Vec<KeyedPath> = Vec::new();
        let mut i: usize = 0;
        while i < paths.len()
            invariant
                i <= paths@.len(),
                want == with_keys(texts(paths@), opt_text(*cwd), windows),
                files@.len() == i,
                keyed_views(files@) =~= want.take(i as int),
            decreases paths.len() - i,
        {
            let ghost before = files@;
            let key = norm_key(paths[i].as_str(), cwd, windows);
            files.push(KeyedPath { path: paths[i].clone(), key });
            assert(keyed_views(files@) =~= keyed_views(before).push(want[i as int]));
            i += 1;
            assert(keyed_views(files@) =~= want.take(i as int));
        }
        assert(want.take(i as int) =~= want);
        let jobs = self.add_keyed(&files);
        let ghost q1 = self@;
        self.refresh_queue_names(sep);
        proof {
            if queue_ok(q0) {
                lemma_adding_is_sound(q0, want);
                lemma_renaming_is_sound(q1, row_names(q1.rows, sep@));
            }
        }
        jobs
    }
}

/// Paths with their keys.
pub open spec fn with_keys(paths: Seq<Seq<char>>, cwd: Option<Seq<char>>, windows: bool) -> Seq<
    KeyedView,
> {
    paths.map_values(|p: Seq<char>| KeyedView { path: p, key: key_of(p, cwd, windows) })
}

/// A queue with the files of some paths added and all rows named.
pub open spec fn with_paths(
    q: QueueView,
    paths: Seq<Seq<char>>,
    cwd: Option<Seq<char>>,
    windows: bool,
    sep: Seq<char>,
) -> QueueView {
    let p = with_files(q, with_keys(paths, cwd, windows));
    renamed(p, row_names(p.rows, sep))
}

// ---- Ranks of all metrics ----

/// The rows with the ranks of the first `n` metrics renewed.
pub open spec fn reranked_to(rows: Seq<RowView>, n: int) -> Seq<RowView>
    decreases n,
{
    if n <= 0 {
        rows
    } else {
        reranked(reranked_to(rows, n - 1), all_kinds()[n - 1])
    }
}

/// The rows with all ranks renewed.
pub open spec fn reranked_all(rows: Seq<RowView>) -> Seq<RowView> {
    reranked_to(rows, 7)
}

pub fn refresh_all_ranks(rows: &mut Vec<QueueRow>)
    ensures
        row_views(final(rows)@) == reranked_all(row_views(old(rows)@)),
{
    let kinds = MetricKind::all();
    let ghost r0 = row_views(rows@);
    let mut i: usize = 0;
    while i < 7
        invariant
            i <= 7,
            kinds@ == all_kinds(),
            row_views(rows@) == reranked_to(r0, i as int),
        decreases 7 - i,
    {
        refresh_ranks(rows, kinds[i]);
        i += 1;
    }
}

/// What renewing ranks leaves alone: all of a row but the ranks.
pub open spec fn same_but_ranks(a: RowView, b: RowView) -> bool {
    &&& a.path == b.path
    &&& a.key == b.key
    &&& a.display == b.display
    &&& a.included == b.included
    &&& a.color_idx == b.color_idx
    &&& a.probe_gen == b.probe_gen
    &&& a.selected == b.selected
    &&& a.media == b.media
    &&& a.media_tip == b.media_tip
    &&& a.info == b.info
    &&& a.cells == b.cells
    &&& a.caches.len() == b.caches.len()
    &&& forall|i: int|
        0 <= i < a.caches.len() ==> {
            &&& (#[trigger] a.caches[i]).stats == b.caches[i].stats
            &&& a.caches[i].text == b.caches[i].text
            &&& a.caches[i].finished == b.caches[i].finished
        }
}

proof fn lemma_reranked_to_keeps(rows: Seq<RowView>, n: int, i: int)
    requires
        0 <= i < rows.len(),
        rows[i].caches.len() == 7,
        n <= 7,
    ensures
        reranked_to(rows, n).len() == rows.len(),
        same_but_ranks(reranked_to(rows, n)[i], rows[i]),
    decreases n,
{
    if n > 0 {
        lemma_reranked_to_keeps(rows, n - 1, i);
    }
}

/// Renewing all ranks changes nothing but ranks.
pub proof fn lemma_reranked_all_keeps(rows: Seq<RowView>, i: int)
    requires
        0 <= i < rows.len(),
        rows[i].caches.len() == 7,
    ensures
        reranked_all(rows).len() == rows.len(),
        same_but_ranks(reranked_all(rows)[i], rows[i]),
{
    lemma_reranked_to_keeps(rows, 7, i);
}

/// Rows that differ in ranks alone are sound together.
pub proof fn lemma_ranks_leave_row_ok(a: RowView, b: RowView)
    requires
        row_ok(a),
        same_but_ranks(b, a),
    ensures
        row_ok(b),
{
    assert forall|k: MetricKind| (#[trigger] b.cache(k)).stats is Some <==> finished(b.cell(k)) by {
        assert(0 <= k.place() < 7);
        assert(b.caches[k.place()].stats == a.caches[k.place()].stats);
        assert(a.cache(k).stats is Some <==> finished(a.cell(k)));
    }
}

/// Renewing all ranks keeps a queue sound.
pub proof fn lemma_reranking_is_sound(q: QueueView)
    requires
        queue_ok(q),
    ensures
        queue_ok(QueueView { rows: reranked_all(q.rows), ..q }),
{
    let p = QueueView { rows: reranked_all(q.rows), ..q };
    lemma_reranked_len(q.rows, 7);
    assert forall|i: int| 0 <= i < p.rows.len() implies same_but_ranks(
        #[trigger] p.rows[i],
        q.rows[i],
    ) && row_ok(p.rows[i]) by {
        assert(row_ok(q.rows[i]));
        lemma_reranked_all_keeps(q.rows, i);
        lemma_ranks_leave_row_ok(q.rows[i], p.rows[i]);
    }
    assert forall|i: int, j: int| 0 <= i < j < p.rows.len() implies (#[trigger] p.rows[i]).key != (
    #[trigger] p.rows[j]).key && p.rows[i].color_idx != p.rows[j].color_idx by {
        assert(q.rows[i].key != q.rows[j].key);
        assert(q.rows[i].color_idx != q.rows[j].color_idx);
    }
    assert forall|i: int| 0 <= i < p.rows.len() implies (#[trigger] p.rows[i]).color_idx
        < p.next_color_idx by {
        assert(q.rows[i].color_idx < q.next_color_idx);
    }
}

proof fn lemma_reranked_len(rows: Seq<RowView>, n: int)
    ensures
        reranked_to(rows, n).len() == rows.len(),
    decreases n,
{
    if n > 0 {
        lemma_reranked_len(rows, n - 1);
    }
}

// ---- Removing and selecting ----

/// The rows that are not selected.
pub open spec fn unselected(rows: Seq<RowView>) -> Seq<RowView>
    decreases rows.len(),
{
    if rows.len() == 0 {
        rows
    } else if rows.last().selected {
        unselected(rows.drop_last())
    } else {
        unselected(rows.drop_last()).push(rows.last())
    }
}

/// A queue without its selected rows.
pub open spec fn without_selected(q: QueueView, sep: Seq<char>) -> QueueView {
    let p = QueueView { rows: unselected(q.rows), ..q };
    let named_queue = renamed(p, row_names(p.rows, sep));
    QueueView { rows: reranked_all(named_queue.rows), ..named_queue }
}

/// Where each row that is not selected goes.
proof fn lemma_unselected(rows: Seq<RowView>) -> (from: Seq<int>)
    ensures
        from.len() == unselected(rows).len(),
        forall|i: int|
            0 <= i < from.len() ==> 0 <= #[trigger] from[i] < rows.len() && unselected(rows)[i]
                == rows[from[i]] && !rows[from[i]].selected,
        forall|i: int, j: int| 0 <= i < j < from.len() ==> #[trigger] from[i] < #[trigger] from[j],
    decreases rows.len(),
{
    if rows.len() == 0 {
        Seq::empty()
    } else {
        let head = lemma_unselected(rows.drop_last());
        if rows.last().selected {
            head
        } else {
            head.push(rows.len() - 1)
        }
    }
}

/// No selected row is left, and every other is.
pub proof fn lemma_removed_exactly_selected(rows: Seq<RowView>, r: RowView)
    ensures
        unselected(rows).contains(r) <==> rows.contains(r) && !r.selected,
    decreases rows.len(),
{
    if rows.len() > 0 {
        let head = rows.drop_last();
        lemma_removed_exactly_selected(head, r);
        if unselected(rows).contains(r) {
            if unselected(head).contains(r) {
                let i = choose|i: int| 0 <= i < head.len() && head[i] == r;
                assert(rows[i] == r);
            } else {
                assert(rows[rows.len() - 1] == rows.last());
                let i = choose|i: int| 0 <= i < unselected(rows).len() && unselected(rows)[i] == r;
                if i < unselected(head).len() {
                    assert(unselected(head)[i] == r);
                }
                assert(r == rows.last());
            }
        }
        if rows.contains(r) && !r.selected {
            let i = choose|i: int| 0 <= i < rows.len() && rows[i] == r;
            if i < head.len() {
                assert(head[i] == r);
                assert(unselected(head).contains(r));
                let j = choose|j: int| 0 <= j < unselected(head).len() && unselected(head)[j] == r;
                assert(unselected(rows)[j] == r);
            } else {
                assert(unselected(rows)[unselected(head).len() as int] == r);
            }
        }
    }
}

/// Removing rows keeps a queue sound; the colours of the others stay.
pub proof fn lemma_removing_is_sound(q: QueueView, sep: Seq<char>)
    requires
        queue_ok(q),
    ensures
        queue_ok(without_selected(q, sep)),
{
    let p = QueueView { rows: unselected(q.rows), ..q };
    let from = lemma_unselected(q.rows);
    assert forall|i: int| 0 <= i < p.rows.len() implies row_ok(#[trigger] p.rows[i])
        && p.rows[i].color_idx < p.next_color_idx by {
        assert(p.rows[i] == q.rows[from[i]]);
    }
    assert forall|i: int, j: int| 0 <= i < j < p.rows.len() implies (#[trigger] p.rows[i]).key != (
    #[trigger] p.rows[j]).key && p.rows[i].color_idx != p.rows[j].color_idx by {
        assert(from[i] < from[j]);
        assert(q.rows[from[i]].key != q.rows[from[j]].key);
        assert(q.rows[from[i]].color_idx != q.rows[from[j]].color_idx);
    }
    lemma_renaming_is_sound(p, row_names(p.rows, sep));
    lemma_reranking_is_sound(renamed(p, row_names(p.rows, sep)));
}

/// The flags of a column.
pub open spec fn selected_flags(rows: Seq<RowView>) -> Seq<bool> {
    rows.map_values(|r: RowView| r.selected)
}

pub open spec fn included_flags(rows: Seq<RowView>) -> Seq<bool> {
    rows.map_values(|r: RowView| r.included)
}

pub open spec fn with_selected(rows: Seq<RowView>, flags: Seq<bool>) -> Seq<RowView> {
    rows.map(|i: int, r: RowView| RowView { selected: flags[i], ..r })
}

pub open spec fn with_included(rows: Seq<RowView>, flags: Seq<bool>) -> Seq<RowView> {
    rows.map(|i: int, r: RowView| RowView { included: flags[i], ..r })
}

impl QueueModel {
    /// Takes the selected rows out of the queue.
    pub fn remove_selected(&mut self, sep: &str)
        ensures
            final(self)@ == without_selected(old(self)@, sep@),
            queue_ok(old(self)@) ==> queue_ok(final(self)@),
    {
        let ghost q0 = self@;
        let mut i: usize = 0;
        let ghost mut seen: int = 0;
        assert(q0.rows.take(0) =~= Seq::<RowView>::empty());
        assert(self@.rows =~= unselected(q0.rows.take(0)) + q0.rows.skip(0));
        while i < self.rows.len()
            invariant
                0 <= seen <= q0.rows.len(),
                i == unselected(q0.rows.take(seen)).len(),
                i <= self.rows@.len(),
                self@ == (QueueView { rows: self@.rows, ..q0 }),
                self@.rows == unselected(q0.rows.take(seen)) + q0.rows.skip(seen),
            decreases self.rows.len() - i,
        {
            let ghost kept = unselected(q0.rows.take(seen));
            let ghost rest = q0.rows.skip(seen);
            let ghost rows = self.rows@;
            let ghost views = self@.rows;
            assert(q0.rows.take(seen + 1).drop_last() =~= q0.rows.take(seen));
            assert(self@.rows[i as int] == rest[0]);
            assert(self.rows@[i as int]@ == self@.rows[i as int]);
            if self.rows[i].selected {
                let _ = self.rows.remove(i);
                assert(self.rows@ == rows.remove(i as int));
                assert(self@.rows =~= views.remove(i as int));
                assert(self@.rows =~= kept + q0.rows.skip(seen + 1));
            } else {
                i += 1;
                assert(self@.rows =~= kept.push(rest[0]) + q0.rows.skip(seen + 1));
            }
            proof {
                seen = seen + 1;
            }
        }
        assert(q0.rows.take(seen) =~= q0.rows);
        assert(self@.rows =~= unselected(q0.rows));
        self.refresh_queue_names(sep);
        refresh_all_ranks(&mut self.rows);
        proof {
            if queue_ok(q0) {
                lemma_removing_is_sound(q0, sep@);
            }
        }
    }

    fn set_selected(&mut self, flags: &Vec<bool>)
        requires
            flags@.len() == old(self).rows@.len(),
        ensures
            final(self)@ == (QueueView {
                rows: with_selected(old(self)@.rows, flags@),
                ..old(self)@
            }),
    {
        let ghost q0 = self@;
        let n: usize = self.rows.len();
        let mut i: usize = 0;
        while i < n
            invariant
                i <= n,
                n == self.rows@.len(),
                n == flags@.len(),
                n == q0.rows.len(),
                self@ == (QueueView { rows: self@.rows, ..q0 }),
                forall|j: int|
                    0 <= j < i ==> (#[trigger] self.rows@[j])@ == (RowView {
                        selected: flags@[j],
                        ..q0.rows[j]
                    }),
                forall|j: int| i <= j < n ==> (#[trigger] self.rows@[j])@ == q0.rows[j],
            decreases n - i,
        {
            let row = &mut self.rows[i];
            row.selected = flags[i];
            i += 1;
        }
        assert(self@.rows =~= with_selected(q0.rows, flags@));
    }

    fn set_included(&mut self, flags: &Vec<bool>)
        requires
            flags@.len() == old(self).rows@.len(),
        ensures
            final(self)@ == (QueueView {
                rows: with_included(old(self)@.rows, flags@),
                ..old(self)@
            }),
    {
        let ghost q0 = self@;
        let n: usize = self.rows.len();
        let mut i: usize = 0;
        while i < n
            invariant
                i <= n,
                n == self.rows@.len(),
                n == flags@.len(),
                n == q0.rows.len(),
                self@ == (QueueView { rows: self@.rows, ..q0 }),
                forall|j: int|
                    0 <= j < i ==> (#[trigger] self.rows@[j])@ == (RowView {
                        included: flags@[j],
                        ..q0.rows[j]
                    }),
                forall|j: int| i <= j < n ==> (#[trigger] self.rows@[j])@ == q0.rows[j],
            decreases n - i,
        {
            let row = &mut self.rows[i];
            row.included = flags[i];
            i += 1;
        }
        assert(self@.rows =~= with_included(q0.rows, flags@));
    }

    fn flags_of(&self, included: bool) -> (r: Vec<bool>)
        ensures
            r@ == (if included {
                included_flags(self@.rows)
            } else {
                selected_flags(self@.rows)
            }),
    {
        let mut r: Vec<bool> = Vec::new();
        let mut i: usize = 0;
        while i < self.rows.len()
            invariant
                i <= self.rows@.len(),
                r@.len() == i,
                forall|j: int|
                    0 <= j < i ==> #[trigger] r@[j] == (if included {
                        self.rows@[j].included
                    } else {
                        self.rows@[j].selected
                    }),
            decreases self.rows.len() - i,
        {
            r.push(
                if included {
                    self.rows[i].included
                } else {
                    self.rows[i].selected
                },
            );
            i += 1;
        }
        assert(r@ =~= if included {
            included_flags(self@.rows)
        } else {
            selected_flags(self@.rows)
        });
        r
    }

    /// A click on the free space of row `i`: see `clicked`.
    pub fn click_row(&mut self, i: usize, alt: bool, shift: bool, view: &Vec<usize>)
        requires
            forall|p: int|
                0 <= p < view@.len() ==> #[trigger] view@[p] < old(self).rows@.len(),
        ensures
            final(self)@ == (if i < old(self)@.rows.len() {
                QueueView {
                    rows: with_selected(
                        old(self)@.rows,
                        clicked(
                            selected_flags(old(self)@.rows),
                            i as int,
                            alt,
                            shift,
                            old(self)@.selected_anchor,
                            view@,
                        ),
                    ),
                    selected_anchor: Some(i),
                    ..old(self)@
                }
            } else {
                old(self)@
            }),
    {
        if i < self.rows.len() {
            let mut flags = self.flags_of(false);
            click(&mut flags, i, alt, shift, self.selected_anchor, view);
            self.set_selected(&flags);
            self.selected_anchor = Some(i);
        }
    }

    /// A click on the box of row `i`: see `clicked`.
    pub fn click_include(&mut self, i: usize, alt: bool, shift: bool, view: &Vec<usize>)
        requires
            forall|p: int|
                0 <= p < view@.len() ==> #[trigger] view@[p] < old(self).rows@.len(),
        ensures
            final(self)@ == (if i < old(self)@.rows.len() {
                QueueView {
                    rows: with_included(
                        old(self)@.rows,
                        clicked(
                            included_flags(old(self)@.rows),
                            i as int,
                            alt,
                            shift,
                            old(self)@.include_anchor,
                            view@,
                        ),
                    ),
                    include_anchor: Some(i),
                    ..old(self)@
                }
            } else {
                old(self)@
            }),
    {
        if i < self.rows.len() {
            let mut flags = self.flags_of(true);
            click(&mut flags, i, alt, shift, self.include_anchor, view);
            self.set_included(&flags);
            self.include_anchor = Some(i);
        }
    }

    /// Selects all rows; the last counts as clicked.
    pub fn select_all(&mut self)
        ensures
            final(self)@ == (if old(self)@.rows.len() > 0 {
                QueueView {
                    rows: with_selected(
                        old(self)@.rows,
                        Seq::new(old(self)@.rows.len(), |i: int| true),
                    ),
                    selected_anchor: Some((old(self)@.rows.len() - 1) as usize),
                    ..old(self)@
                }
            } else {
                old(self)@
            }),
    {
        let n: usize = self.rows.len();
        if n == 0 {
            return;
        }
        let mut flags: Vec<bool> = Vec::new();
        let mut i: usize = 0;
        while i < n
            invariant
                i <= n,
                flags@ =~= Seq::new(i as nat, |j: int| true),
            decreases n - i,
        {
            flags.push(true);
            i += 1;
        }
        self.set_selected(&flags);
        self.selected_anchor = Some(n - 1);
    }
}

// ---- Clearing results ----

/// A queue whose rows keep their keys and colours, and are sound, stays sound.
pub proof fn lemma_sound_by_rows(q: QueueView, p: QueueView)
    requires
        queue_ok(q),
        p.rows.len() == q.rows.len(),
        p.next_color_idx == q.next_color_idx,
        forall|i: int|
            0 <= i < p.rows.len() ==> (#[trigger] p.rows[i]).key == q.rows[i].key
                && p.rows[i].color_idx == q.rows[i].color_idx && row_ok(p.rows[i]),
    ensures
        queue_ok(p),
{
    assert forall|i: int, j: int| 0 <= i < j < p.rows.len() implies (#[trigger] p.rows[i]).key != (
    #[trigger] p.rows[j]).key && p.rows[i].color_idx != p.rows[j].color_idx by {
        assert(q.rows[i].key != q.rows[j].key);
        assert(q.rows[i].color_idx != q.rows[j].color_idx);
    }
    assert forall|i: int| 0 <= i < p.rows.len() implies (#[trigger] p.rows[i]).color_idx
        < p.next_color_idx by {
        assert(q.rows[i].color_idx < q.next_color_idx);
    }
}

/// A row with nothing of one metric.
pub open spec fn row_cleared(r: RowView, kind: MetricKind) -> RowView {
    r.with_cell(kind, CellView::Idle).with_cache(kind, no_cache())
}

pub open spec fn cleared(rows: Seq<RowView>, kind: MetricKind) -> Seq<RowView> {
    rows.map_values(|r: RowView| row_cleared(r, kind))
}

/// A row with nothing of any metric.
pub open spec fn row_all_cleared(r: RowView) -> RowView {
    RowView {
        cells: Seq::new(7, |i: int| CellView::Idle),
        caches: Seq::new(7, |i: int| no_cache()),
        ..r
    }
}

pub open spec fn all_cleared(rows: Seq<RowView>) -> Seq<RowView> {
    rows.map_values(|r: RowView| row_all_cleared(r))
}

proof fn lemma_none_scored(rows: Seq<RowView>, kind: MetricKind)
    requires
        forall|i: int| 0 <= i < rows.len() ==> (#[trigger] rows[i]).cache(kind).stats is None,
    ensures
        scored(rows, kind) == 0,
    decreases rows.len(),
{
    if rows.len() > 0 {
        let head = rows.drop_last();
        assert forall|i: int| 0 <= i < head.len() implies (#[trigger] head[i]).cache(
            kind,
        ).stats is None by {
            assert(head[i] == rows[i]);
        }
        lemma_none_scored(head, kind);
        assert(rows[rows.len() - 1].cache(kind).stats is None);
    }
}

proof fn lemma_cleared_ranks(rows: Seq<RowView>, kind: MetricKind)
    requires
        forall|i: int| 0 <= i < rows.len() ==> (#[trigger] rows[i]).caches.len() == 7,
    ensures
        reranked(cleared(rows, kind), kind) == cleared(rows, kind),
{
    let c = cleared(rows, kind);
    assert forall|i: int| 0 <= i < c.len() implies (#[trigger] c[i]).cache(kind) == no_cache()
        && c[i].caches.len() == 7 by {
        assert(rows[i].caches.len() == 7);
    }
    lemma_none_scored(c, kind);
    assert forall|i: int| 0 <= i < c.len() implies #[trigger] reranked(c, kind)[i] == c[i] by {
        assert(c[i].cache(kind) == no_cache());
        assert(row_ranks(c, kind, c[i]) == plain_ranks());
        assert(with_ranks(c[i], kind, plain_ranks()) =~= c[i]);
    }
    assert(reranked(c, kind) =~= c);
}

/// Clearing a metric leaves every other as it is, and a sound row sound.
pub proof fn lemma_clearing_is_local(r: RowView, kind: MetricKind, other: MetricKind)
    requires
        row_ok(r),
    ensures
        row_ok(row_cleared(r, kind)),
        kind != other ==> row_cleared(r, kind).cell(other) == r.cell(other) && row_cleared(
            r,
            kind,
        ).cache(other) == r.cache(other),
        row_cleared(r, kind).cell(kind) is Idle,
{
    let c = row_cleared(r, kind);
    assert(kind != other ==> kind.place() != other.place());
    assert forall|k: MetricKind| (#[trigger] c.cache(k)).stats is Some <==> finished(c.cell(k)) by {
        assert(r.cache(k).stats is Some <==> finished(r.cell(k)));
        assert(0 <= k.place() < 7);
    }
}

/// Clearing all metrics clears each.
pub proof fn lemma_all_cleared(r: RowView, kind: MetricKind)
    ensures
        row_all_cleared(r).cell(kind) is Idle,
        row_all_cleared(r).cache(kind) == no_cache(),
        row_ok(row_all_cleared(r)),
{
    let c = row_all_cleared(r);
    assert forall|k: MetricKind| (#[trigger] c.cache(k)).stats is Some <==> finished(c.cell(k)) by {
        assert(0 <= k.place() < 7);
    }
}

/// A row whose finished cells show other texts.
pub open spec fn row_refrozen(r: RowView, shown: Seq<Seq<char>>) -> RowView {
    RowView {
        caches: r.caches.map(
            |k: int, c: CacheView|
                if r.cells[k] is Done {
                    CacheView { text: shown[k], ..c }
                } else {
                    c
                },
        ),
        ..r
    }
}

/// Lists of texts for each row.
pub open spec fn shown_lists(v: Seq<Vec<String>>) -> Seq<Seq<Seq<char>>> {
    v.map_values(|l: Vec<String>| texts(l@))
}

impl QueueModel {
    /// Clears one metric in all rows.
    pub fn reset_metric(&mut self, kind: MetricKind)
        ensures
            final(self)@ == (QueueView { rows: cleared(old(self)@.rows, kind), ..old(self)@ }),
            queue_ok(old(self)@) ==> queue_ok(final(self)@),
    {
        let ghost q0 = self@;
        let n: usize = self.rows.len();
        let mut i: usize = 0;
        while i < n
            invariant
                i <= n,
                n == self.rows@.len(),
                n == q0.rows.len(),
                self@ == (QueueView { rows: self@.rows, ..q0 }),
                forall|j: int|
                    0 <= j < i ==> (#[trigger] self.rows@[j])@ == row_cleared(q0.rows[j], kind),
                forall|j: int| i <= j < n ==> (#[trigger] self.rows@[j])@ == q0.rows[j],
            decreases n - i,
        {
            let row = &mut self.rows[i];
            *row.cell_mut(kind) = MetricCell::Idle;
            row.clear_cached(kind);
            i += 1;
        }
        assert(self@.rows =~= cleared(q0.rows, kind));
        refresh_ranks(&mut self.rows, kind);
        proof {
            lemma_rows_have_seven(old(self).rows@);
            lemma_cleared_ranks(q0.rows, kind);
            if queue_ok(q0) {
                assert forall|j: int| 0 <= j < self@.rows.len() implies (
                #[trigger] self@.rows[j]).key == q0.rows[j].key && self@.rows[j].color_idx
                    == q0.rows[j].color_idx && row_ok(self@.rows[j]) by {
                    assert(row_ok(q0.rows[j]));
                    lemma_clearing_is_local(q0.rows[j], kind, kind);
                }
                lemma_sound_by_rows(q0, self@);
            }
        }
    }

    /// Clears all metrics in all rows.
    pub fn reset_all(&mut self)
        ensures
            final(self)@ == (QueueView { rows: all_cleared(old(self)@.rows), ..old(self)@ }),
            queue_ok(old(self)@) ==> queue_ok(final(self)@),
    {
        let ghost q0 = self@;
        let kinds = MetricKind::all();
        let n: usize = self.rows.len();
        let mut i: usize = 0;
        while i < n
            invariant
                i <= n,
                n == self.rows@.len(),
                n == q0.rows.len(),
                kinds@ == all_kinds(),
                self@ == (QueueView { rows: self@.rows, ..q0 }),
                forall|j: int|
                    0 <= j < i ==> (#[trigger] self.rows@[j])@ == row_all_cleared(q0.rows[j]),
                forall|j: int| i <= j < n ==> (#[trigger] self.rows@[j])@ == q0.rows[j],
            decreases n - i,
        {
            let row = &mut self.rows[i];
            clear_row(row);
            i += 1;
        }
        assert(self@.rows =~= all_cleared(q0.rows));
        proof {
            if queue_ok(q0) {
                assert forall|j: int| 0 <= j < self@.rows.len() implies (
                #[trigger] self@.rows[j]).key == q0.rows[j].key && self@.rows[j].color_idx
                    == q0.rows[j].color_idx && row_ok(self@.rows[j]) by {
                    lemma_all_cleared(q0.rows[j], MetricKind::Psnr);
                }
                lemma_sound_by_rows(q0, self@);
            }
        }
    }

    /// Renews the texts of finished cells; `shown` holds for each row the
    /// printed averages of its metrics in their order.
    pub fn refreeze_cell_texts(&mut self, shown: &Vec<Vec<String>>)
        requires
            shown@.len() == old(self).rows@.len(),
            forall|i: int| 0 <= i < shown@.len() ==> (#[trigger] shown@[i])@.len() == 7,
        ensures
            final(self)@ == (QueueView {
                rows: old(self)@.rows.map(
                    |i: int, r: RowView| row_refrozen(r, shown_lists(shown@)[i]),
                ),
                ..old(self)@
            }),
    {
        let ghost q0 = self@;
        let n: usize = self.rows.len();
        let mut i: usize = 0;
        while i < n
            invariant
                i <= n,
                n == self.rows@.len(),
                n == q0.rows.len(),
                n == shown@.len(),
                forall|k: int| 0 <= k < shown@.len() ==> (#[trigger] shown@[k])@.len() == 7,
                self@ == (QueueView { rows: self@.rows, ..q0 }),
                forall|j: int|
                    0 <= j < i ==> (#[trigger] self.rows@[j])@ == row_refrozen(
                        q0.rows[j],
                        shown_lists(shown@)[j],
                    ),
                forall|j: int| i <= j < n ==> (#[trigger] self.rows@[j])@ == q0.rows[j],
            decreases n - i,
        {
            let row = &mut self.rows[i];
            assert(shown_lists(shown@)[i as int] == texts(shown@[i as int]@));
            refreeze_row(row, &shown[i]);
            i += 1;
        }
        assert(self@.rows =~= q0.rows.map(
            |i: int, r: RowView| row_refrozen(r, shown_lists(shown@)[i]),
        ));
    }
}

proof fn lemma_rows_have_seven(rows: Seq<QueueRow>)
    ensures
        forall|i: int|
            0 <= i < rows.len() ==> (#[trigger] row_views(rows)[i]).caches.len() == 7,
{
}

fn clear_row(row: &mut QueueRow)
    ensures
        final(row)@ == row_all_cleared(old(row)@),
{
    let kinds = MetricKind::all();
    let ghost r0 = row@;
    let mut k: usize = 0;
    while k < 7
        invariant
            k <= 7,
            kinds@ == all_kinds(),
            kinds@.len() == 7,
            forall|i: int| 0 <= i < 7 ==> (#[trigger] kinds@[i]).place() == i,
            row@ == (RowView { cells: row@.cells, caches: row@.caches, ..r0 }),
            row@.cells.len() == 7,
            row@.caches.len() == 7,
            forall|j: int| 0 <= j < k ==> #[trigger] row@.cells[j] is Idle,
            forall|j: int| 0 <= j < k ==> #[trigger] row@.caches[j] == no_cache(),
        decreases 7 - k,
    {
        *row.cell_mut(kinds[k]) = MetricCell::Idle;
        row.clear_cached(kinds[k]);
        k += 1;
    }
    assert(row@ =~= row_all_cleared(r0));
}

fn refreeze_row(row: &mut QueueRow, shown: &Vec<String>)
    requires
        shown@.len() == 7,
    ensures
        final(row)@ == row_refrozen(old(row)@, texts(shown@)),
{
    let kinds = MetricKind::all();
    let ghost r0 = row@;
    let ghost want = row_refrozen(r0, texts(shown@));
    let mut k: usize = 0;
    while k < 7
        invariant
            k <= 7,
            shown@.len() == 7,
            kinds@ == all_kinds(),
            kinds@.len() == 7,
            forall|i: int| 0 <= i < 7 ==> (#[trigger] kinds@[i]).place() == i,
            want == row_refrozen(r0, texts(shown@)),
            row@ == (RowView { caches: row@.caches, ..r0 }),
            r0.caches.len() == 7,
            row@.caches.len() == 7,
            forall|j: int| 0 <= j < k ==> #[trigger] row@.caches[j] == want.caches[j],
            forall|j: int| k <= j < 7 ==> #[trigger] row@.caches[j] == r0.caches[j],
        decreases 7 - k,
    {
        let kind = kinds[k];
        assert(row@.caches[k as int] == r0.caches[k as int]);
        if row.cell(kind).is_done() {
            let cache = row.cached_mut(kind);
            cache.text = shown[k].clone();
        }
        k += 1;
    }
    assert(row@ =~= want);
}

// ---- What becomes of rows ----

/// A queued file has a row of its own path, included and not selected, without
/// any result, that waits for an answer; and that is asked for under the token
/// of the row. A file that is queued already changes nothing.
pub proof fn lemma_new_rows_are_asked_about(a: Adding, f: KeyedView)
    requires
        0 <= a.color <= usize::MAX,
    ensures
        ({
            let after = add_one(a, f);
            let known = exists|i: int| 0 <= i < a.rows.len() && (#[trigger] a.rows[i]).key == f.key;
            &&& known ==> after == a
            &&& !known ==> {
                let r = after.rows.last();
                &&& after.rows.len() == a.rows.len() + 1
                &&& after.rows.drop_last() == a.rows
                &&& r.path == f.path && r.key == f.key && r.included && !r.selected && r.info is None
                &&& r.color_idx == a.color && after.color == a.color + 1
                &&& forall|k: MetricKind|
                    (#[trigger] r.cell(k)) is Idle && r.cache(k).stats is None
                &&& after.jobs == a.jobs.push(
                    JobView { key: r.key, path: r.path, token: r.probe_gen },
                )
                &&& after.token != a.token
            }
        }),
{
    lemma_keyed(a.rows, f.key, 0);
    if keyed(a.rows, f.key, 0) is None {
        assert(add_one(a, f).rows.drop_last() =~= a.rows);
    }
}

/// Texts that are shown anew are those of finished cells; all else of a row
/// stays as it is.
pub proof fn lemma_only_results_are_shown_anew(r: RowView, shown: Seq<Seq<char>>, kind: MetricKind)
    requires
        r.cells.len() == 7 && r.caches.len() == 7,
    ensures
        ({
            let after = row_refrozen(r, shown);
            &&& r.cell(kind) is Done ==> after.cache(kind).text == shown[kind.place()]
            &&& !(r.cell(kind) is Done) ==> after.cache(kind) == r.cache(kind)
            &&& after.cache(kind).stats == r.cache(kind).stats && after.cache(kind).ranks == r.cache(
                kind,
            ).ranks && after.cache(kind).finished == r.cache(kind).finished
            &&& after.cells == r.cells && after.path == r.path && after.included == r.included
        }),
{
}

/// A click on a column changes the flags of that column alone.
pub proof fn lemma_flags_are_set_alone(rows: Seq<RowView>, flags: Seq<bool>, i: int)
    requires
        0 <= i < rows.len(),
        flags.len() == rows.len(),
    ensures
        with_selected(rows, flags)[i].selected == flags[i],
        with_selected(rows, flags)[i].included == rows[i].included,
        with_selected(rows, flags)[i].cells == rows[i].cells,
        with_included(rows, flags)[i].included == flags[i],
        with_included(rows, flags)[i].selected == rows[i].selected,
        with_included(rows, flags)[i].cells == rows[i].cells,
        selected_flags(with_selected(rows, flags)) == flags,
        included_flags(with_included(rows, flags)) == flags,
{
    assert(selected_flags(with_selected(rows, flags)) =~= flags);
    assert(included_flags(with_included(rows, flags)) =~= flags);
}

/// Once rows have moved or been named anew, no row is the last clicked one.
/// Each row has its own name, and keeps all else.
pub proof fn lemma_names_go_to_their_rows(q: QueueView, names: Seq<Seq<char>>, i: int)
    requires
        0 <= i < q.rows.len(),
    ensures
        ({
            let p = renamed(q, names);
            &&& p.rows.len() == q.rows.len()
            &&& p.rows[i].display == names[i]
            &&& p.rows[i].path == q.rows[i].path && p.rows[i].key == q.rows[i].key && p.rows[i].cells
                == q.rows[i].cells && p.rows[i].included == q.rows[i].included
            &&& p.include_anchor is None && p.selected_anchor is None
            &&& p.sort_spec == q.sort_spec
        }),
{
}

} // verus!
