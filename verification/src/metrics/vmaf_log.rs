//! The JSON log that libvmaf writes, and how a VMAF run ends.
use vstd::prelude::*;
use vstd::string::StringExecFns;
use crate::json::{atom, atom_of, json_of, lemma_object_view, member, parse_json, Json, Tree};
use crate::metrics::output::{
    fatal, held, hold, is_fatal_line, last_err_line, last_line, sane_db, sanitize_db,
};
use crate::metrics::run::{
    fail, failed, no_data_message, no_data_text, rows_of, DetailView, FrameDetail, OutcomeView,
    RunOutcome,
};
use crate::metrics::vmaf::Pooling;
use crate::num::{zero, Num};
use crate::outside::{lowercase, opt_text};
use crate::text::{dec_i64, dec_int, full_lines, full_lines_of, has, put, same, texts};

verus! {

/// One frame's metrics by name, as texts that may read as numbers.
#[derive(Debug)]
pub struct FrameTexts {
    pub names: Vec<String>,
    pub texts: Vec<Option<String>>,
}

pub struct FrameTextsView {
    pub names: Seq<Seq<char>>,
    pub texts: Seq<Option<Seq<char>>>,
}

pub open spec fn opt_each(v: Seq<Option<String>>) -> Seq<Option<Seq<char>>> {
    v.map_values(|o: Option<String>| opt_text(o))
}

impl View for FrameTexts {
    type V = FrameTextsView;

    open spec fn view(&self) -> FrameTextsView {
        FrameTextsView { names: texts(self.names@), texts: opt_each(self.texts@) }
    }
}

/// What a log holds, before its numbers are read.
#[derive(Debug)]
pub struct LogTexts {
    pub frames: Vec<FrameTexts>,
    pub mean: Option<String>,
    pub harmonic_mean: Option<String>,
}

pub struct LogTextsView {
    pub frames: Seq<FrameTextsView>,
    pub mean: Option<Seq<char>>,
    pub harmonic_mean: Option<Seq<char>>,
}

pub open spec fn frame_views(v: Seq<FrameTexts>) -> Seq<FrameTextsView> {
    v.map_values(|f: FrameTexts| f@)
}

impl View for LogTexts {
    type V = LogTextsView;

    open spec fn view(&self) -> LogTextsView {
        LogTextsView {
            frames: frame_views(self.frames@),
            mean: opt_text(self.mean),
            harmonic_mean: opt_text(self.harmonic_mean),
        }
    }
}

/// The metrics of one frame of the log.
pub open spec fn frame_of(t: Tree) -> Option<FrameTextsView> {
    match member(t, "metrics"@) {
        Some(Tree::Object(m)) => Some(
            FrameTextsView {
                names: m.map_values(|e: (Seq<char>, Tree)| e.0),
                texts: m.map_values(|e: (Seq<char>, Tree)| atom(e.1)),
            },
        ),
        _ => None,
    }
}

/// The frames of a list that have metrics.
pub open spec fn frames_of(list: Seq<Tree>) -> Seq<FrameTextsView>
    decreases list.len(),
{
    if list.len() == 0 {
        Seq::empty()
    } else {
        let rest = frames_of(list.drop_last());
        match frame_of(list.last()) {
            Some(f) => rest.push(f),
            None => rest,
        }
    }
}

/// The text of a pooled value.
pub open spec fn pooled_text(t: Tree, key: Seq<char>) -> Option<Seq<char>> {
    match member(t, "pooled_metrics"@) {
        Some(p) => match member(p, "vmaf"@) {
            Some(v) => match member(v, key) {
                Some(x) => atom(x),
                None => None,
            },
            None => None,
        },
        None => None,
    }
}

/// What a log holds.
pub open spec fn log_of(t: Tree) -> LogTextsView {
    LogTextsView {
        frames: match member(t, "frames"@) {
            Some(Tree::Array(list)) => frames_of(list),
            _ => Seq::empty(),
        },
        mean: pooled_text(t, "mean"@),
        harmonic_mean: pooled_text(t, "harmonic_mean"@),
    }
}

fn frame_texts(j: &Json) -> (r: Option<FrameTexts>)
    ensures
        match r {
            Some(f) => frame_of(j@) == Some(f@),
            None => frame_of(j@) is None,
        },
{
    match j.get("metrics") {
        Some(o) => match o {
            Json::Object(m) => {
                let ghost all = o@->Object_0;
                proof {
                    lemma_object_view(*o, *m);
                }
                let mut names: Vec<String> = Vec::new();
                let mut values: Vec<Option<String>> = Vec::new();
                let mut i: usize = 0;
                let ghost name = |e: (Seq<char>, Tree)| e.0;
                let ghost value = |e: (Seq<char>, Tree)| atom(e.1);
                assert(texts(names@) =~= all.take(0).map_values(name));
                assert(opt_each(values@) =~= all.take(0).map_values(value));
                while i < m.len()
                    invariant
                        i <= m@.len(),
                        all.len() == m@.len(),
                        forall|k: int| 0 <= k < m@.len() ==> #[trigger] all[k] == (m@[k].0@, m@[k].1@),
                        name == (|e: (Seq<char>, Tree)| e.0),
                        value == (|e: (Seq<char>, Tree)| atom(e.1)),
                        texts(names@) == all.take(i as int).map_values(name),
                        opt_each(values@) == all.take(i as int).map_values(value),
                    decreases m.len() - i,
                {
                    let ghost n0 = texts(names@);
                    let ghost v0 = opt_each(values@);
                    assert(all[i as int] == (m@[i as int].0@, m@[i as int].1@));
                    put(&mut names, m[i].0.as_str());
                    let a = atom_of(&m[i].1);
                    values.push(a);
                    assert(opt_each(values@) =~= v0.push(opt_text(a)));
                    i += 1;
                    assert(texts(names@) =~= all.take(i as int).map_values(name));
                    assert(opt_each(values@) =~= all.take(i as int).map_values(value));
                }
                assert(all.take(i as int) =~= all);
                Some(FrameTexts { names, texts: values })
            },
            _ => None,
        },
        None => None,
    }
}

fn pooled_of(j: &Json, key: &str) -> (r: Option<String>)
    ensures
        opt_text(r) == pooled_text(j@, key@),
{
    match j.get("pooled_metrics") {
        Some(p) => match p.get("vmaf") {
            Some(v) => match v.get(key) {
                Some(x) => atom_of(x),
                None => None,
            },
            None => None,
        },
        None => None,
    }
}

/// The texts of a log, from the JSON that it holds.
pub fn read_log(j: &Json) -> (r: LogTexts)
    ensures
        r@ == log_of(j@),
{
    let mut frames: Vec<FrameTexts> = Vec::new();
    assert(frame_views(frames@) =~= Seq::<FrameTextsView>::empty());
    if let Some(a) = j.get("frames") {
        if let Json::Array(list) = a {
            let ghost all = a@->Array_0;
            let mut i: usize = 0;
            assert(all.take(0) =~= Seq::<Tree>::empty());
            while i < list.len()
                invariant
                    i <= list@.len(),
                    *a == Json::Array(*list),
                    all == a@->Array_0,
                    frame_views(frames@) == frames_of(all.take(i as int)),
                decreases list.len() - i,
            {
                assert(all[i as int] == list@[i as int]@);
                assert(all.take(i + 1).drop_last() =~= all.take(i as int));
                let ghost f0 = frame_views(frames@);
                if let Some(f) = frame_texts(&list[i]) {
                    frames.push(f);
                    assert(frame_views(frames@) =~= f0.push(f@));
                }
                i += 1;
            }
            assert(all.take(i as int) =~= all);
        }
    }
    LogTexts { frames, mean: pooled_of(j, "mean"), harmonic_mean: pooled_of(j, "harmonic_mean") }
}

/// The texts of a log file; `None` where it is not JSON.
pub fn read_vmaf_log(text: &str) -> (r: Option<LogTexts>)
    ensures
        match r {
            Some(l) => json_of(text@) is Some && l@ == log_of(json_of(text@)->0),
            None => json_of(text@) is None,
        },
{
    match parse_json(text) {
        Some(j) => Some(read_log(&j)),
        None => None,
    }
}

/// One frame's metrics by name, as numbers.
#[derive(Debug)]
pub struct FrameNums {
    pub names: Vec<String>,
    pub nums: Vec<Option<Num>>,
}

pub struct FrameNumsView {
    pub names: Seq<Seq<char>>,
    pub nums: Seq<Option<Num>>,
}

impl View for FrameNums {
    type V = FrameNumsView;

    open spec fn view(&self) -> FrameNumsView {
        FrameNumsView { names: texts(self.names@), nums: self.nums@ }
    }
}

pub open spec fn num_views(v: Seq<FrameNums>) -> Seq<FrameNumsView> {
    v.map_values(|f: FrameNums| f@)
}

/// The number under a name.
pub open spec fn lookup(names: Seq<Seq<char>>, nums: Seq<Option<Num>>, key: Seq<char>) -> Option<Num>
    decreases names.len(),
{
    if names.len() == 0 || nums.len() == 0 {
        None
    } else if names[0] == key {
        nums[0]
    } else {
        lookup(names.skip(1), nums.skip(1), key)
    }
}

fn number_of(f: &FrameNums, key: &str) -> (r: Option<Num>)
    ensures
        r == lookup(f@.names, f@.nums, key@),
{
    let ghost names = f@.names;
    let mut i: usize = 0;
    assert(names.skip(0) =~= names);
    assert(f.nums@.skip(0) =~= f.nums@);
    while i < f.names.len() && i < f.nums.len()
        invariant
            i <= f.names@.len(),
            i <= f.nums@.len(),
            names == texts(f.names@),
            lookup(names.skip(i as int), f.nums@.skip(i as int), key@) == lookup(
                names,
                f.nums@,
                key@,
            ),
        decreases f.names.len() - i,
    {
        assert(names.skip(i as int)[0] == f.names@[i as int]@);
        assert(names.skip(i as int).skip(1) =~= names.skip(i + 1));
        assert(f.nums@.skip(i as int).skip(1) =~= f.nums@.skip(i + 1));
        if same(f.names[i].as_str(), key) {
            return f.nums[i];
        }
        i += 1;
    }
    None
}

/// Scores and feature rows of a log.
#[derive(Debug)]
pub struct VmafLog {
    pub values: Vec<Num>,
    pub mean: Option<Num>,
    pub harmonic_mean: Option<Num>,
    /// Feature names, the score last.
    pub cols: Vec<String>,
    pub rows: Vec<Vec<Num>>,
}

/// What a log's frames add up to.
pub struct Scores {
    pub cols: Seq<Seq<char>>,
    pub values: Seq<Num>,
    pub rows: Seq<Seq<Num>>,
}

/// The columns: the names of a frame, with the score at the end.
pub open spec fn pinned(names: Seq<Seq<char>>) -> Seq<Seq<char>> {
    let rest = names.filter(|n: Seq<char>| n != "vmaf"@);
    if names.contains("vmaf"@) {
        rest.push("vmaf"@)
    } else {
        rest
    }
}

/// A score within the model's range: `inf` is the top, `nan` is 0.
pub open spec fn score(v: Num, max: Num) -> Num {
    if v.infinite() {
        max
    } else {
        held(sane_db(v), max)
    }
}

/// The features of a frame by column, where it has all of them.
pub open spec fn feature_row(f: FrameNumsView, cols: Seq<Seq<char>>) -> Option<Seq<Num>> {
    if forall|k: int| 0 <= k < cols.len() ==> lookup(f.names, f.nums, #[trigger] cols[k]) is Some {
        Some(cols.map_values(|c: Seq<char>| sane_db(lookup(f.names, f.nums, c)->0)))
    } else {
        None
    }
}

/// One more frame. The first sets the columns. A frame counts where it has a
/// finite score and all features.
pub open spec fn scored(s: Scores, f: FrameNumsView, max: Num) -> Scores {
    let cols = if s.cols.len() == 0 {
        pinned(f.names)
    } else {
        s.cols
    };
    match (lookup(f.names, f.nums, "vmaf"@), feature_row(f, cols)) {
        (Some(v), Some(row)) => if score(v, max).finite() {
            Scores { cols, values: s.values.push(score(v, max)), rows: s.rows.push(row) }
        } else {
            Scores { cols, values: s.values, rows: s.rows }
        },
        _ => Scores { cols, values: s.values, rows: s.rows },
    }
}

pub open spec fn scored_all(fs: Seq<FrameNumsView>, max: Num) -> Scores
    decreases fs.len(),
{
    if fs.len() == 0 {
        Scores { cols: Seq::empty(), values: Seq::empty(), rows: Seq::empty() }
    } else {
        scored(scored_all(fs.drop_last(), max), fs.last(), max)
    }
}

/// A pooled value within the model's range; `nan` does not count.
pub open spec fn sane_pooled(v: Option<Num>, max: Num) -> Option<Num> {
    match v {
        Some(n) => if n.nan() {
            None
        } else {
            Some(held(n, max))
        },
        None => None,
    }
}

fn pin(names: &Vec<String>) -> (r: Vec<String>)
    ensures
        texts(r@) == pinned(texts(names@)),
{
    let mut r: Vec<String> = Vec::new();
    let ghost keep = |n: Seq<char>| n != "vmaf"@;
    let mut i: usize = 0;
    assert(texts(r@) =~= texts(names@).take(0).filter(keep)) by {
        reveal(Seq::filter);
    }
    while i < names.len()
        invariant
            i <= names@.len(),
            keep == (|n: Seq<char>| n != "vmaf"@),
            texts(r@) == texts(names@).take(i as int).filter(keep),
        decreases names.len() - i,
    {
        assert(texts(names@).take(i + 1).drop_last() =~= texts(names@).take(i as int));
        assert(texts(names@).take(i + 1).last() == names@[i as int]@);
        proof {
            reveal(Seq::filter);
        }
        if !same(names[i].as_str(), "vmaf") {
            put(&mut r, names[i].as_str());
        }
        i += 1;
    }
    assert(texts(names@).take(i as int) =~= texts(names@));
    if has(names, "vmaf") {
        put(&mut r, "vmaf");
    }
    r
}

pub open spec fn opt_row(o: Option<Vec<Num>>) -> Option<Seq<Num>> {
    match o {
        Some(v) => Some(v@),
        None => None,
    }
}

fn features(f: &FrameNums, cols: &Vec<String>) -> (r: Option<Vec<Num>>)
    ensures
        opt_row(r) == feature_row(f@, texts(cols@)),
{
    let ghost all = texts(cols@);
    let ghost pick = |c: Seq<char>| sane_db(lookup(f@.names, f@.nums, c)->0);
    let mut row: Vec<Num> = Vec::new();
    let mut k: usize = 0;
    assert(row@ =~= all.take(0).map_values(pick));
    while k < cols.len()
        invariant
            k <= cols@.len(),
            all == texts(cols@),
            pick == (|c: Seq<char>| sane_db(lookup(f@.names, f@.nums, c)->0)),
            row@ == all.take(k as int).map_values(pick),
            forall|j: int| 0 <= j < k ==> lookup(f@.names, f@.nums, #[trigger] all[j]) is Some,
        decreases cols.len() - k,
    {
        assert(all[k as int] == cols@[k as int]@);
        match number_of(f, cols[k].as_str()) {
            Some(n) => {
                row.push(sanitize_db(n));
            },
            None => {
                assert(!(lookup(f@.names, f@.nums, all[k as int]) is Some));
                return None;
            },
        }
        k += 1;
        assert(row@ =~= all.take(k as int).map_values(pick));
    }
    assert(all.take(k as int) =~= all);
    Some(row)
}

fn pooled_value(v: Option<Num>, max: Num) -> (r: Option<Num>)
    ensures
        r == sane_pooled(v, max),
{
    match v {
        Some(n) => if n.is_nan() {
            None
        } else {
            Some(hold(n, max))
        },
        None => None,
    }
}

/// The scores of a log, given what its texts read as and the top of the
/// model's range.
pub fn parse_vmaf_log(
    frames: &Vec<FrameNums>,
    mean: Option<Num>,
    harmonic_mean: Option<Num>,
    max_score: Num,
) -> (r: VmafLog)
    ensures
        ({
            let s = scored_all(num_views(frames@), max_score);
            &&& r.values@ == s.values
            &&& texts(r.cols@) == s.cols
            &&& rows_of(r.rows@) == s.rows
            &&& r.mean == sane_pooled(mean, max_score)
            &&& r.harmonic_mean == sane_pooled(harmonic_mean, max_score)
        }),
{
    let ghost all = num_views(frames@);
    let mut cols: Vec<String> = Vec::new();
    let mut values: Vec<Num> = Vec::new();
    let mut rows: Vec<Vec<Num>> = Vec::new();
    let mut i: usize = 0;
    assert(all.take(0) =~= Seq::<FrameNumsView>::empty());
    assert(texts(cols@) =~= Seq::<Seq<char>>::empty());
    assert(rows_of(rows@) =~= Seq::<Seq<Num>>::empty());
    while i < frames.len()
        invariant
            i <= frames@.len(),
            all == num_views(frames@),
            values@ == scored_all(all.take(i as int), max_score).values,
            texts(cols@) == scored_all(all.take(i as int), max_score).cols,
            rows_of(rows@) == scored_all(all.take(i as int), max_score).rows,
        decreases frames.len() - i,
    {
        assert(all.take(i + 1).drop_last() =~= all.take(i as int));
        assert(all.take(i + 1).last() == frames@[i as int]@);
        let f = &frames[i];
        assert(texts(cols@).len() == cols@.len());
        if cols.len() == 0 {
            cols = pin(&f.names);
        }
        let ghost r0 = rows_of(rows@);
        if let Some(v) = number_of(f, "vmaf") {
            let s = if v.is_infinite() {
                max_score
            } else {
                hold(sanitize_db(v), max_score)
            };
            if s.is_finite() {
                if let Some(row) = features(f, &cols) {
                    values.push(s);
                    rows.push(row);
                    assert(rows_of(rows@) =~= r0.push(row@));
                }
            }
        }
        i += 1;
    }
    assert(all.take(i as int) =~= all);
    VmafLog {
        values,
        mean: pooled_value(mean, max_score),
        harmonic_mean: pooled_value(harmonic_mean, max_score),
        cols,
        rows,
    }
}

/// Values and rows stay side by side, every row has a number for each column,
/// and every value lies within the model's range.
pub proof fn lemma_log_rows_match_values(fs: Seq<FrameNumsView>, max: Num)
    requires
        max.finite(),
        !max.less(zero()),
    ensures
        ({
            let s = scored_all(fs, max);
            &&& s.values.len() == s.rows.len()
            &&& forall|i: int|
                0 <= i < s.rows.len() ==> (#[trigger] s.rows[i]).len() == s.cols.len()
            &&& forall|i: int|
                0 <= i < s.values.len() ==> !(#[trigger] s.values[i]).less(zero()) && !max.less(
                    s.values[i],
                ) && s.values[i].finite()
        }),
    decreases fs.len(),
{
    if fs.len() > 0 {
        lemma_log_rows_match_values(fs.drop_last(), max);
        let s = scored_all(fs.drop_last(), max);
        let t = scored_all(fs, max);
        if s.rows.len() > 0 {
            lemma_rows_have_score(fs.drop_last(), max);
        }
        assert forall|i: int| 0 <= i < t.rows.len() implies (#[trigger] t.rows[i]).len()
            == t.cols.len() by {
            if i < s.rows.len() {
                assert(t.rows[i] == s.rows[i]);
                assert(s.cols.len() > 0);
            }
        }
    }
}

/// Where a frame counts, the score is the last column.
pub proof fn lemma_rows_have_score(fs: Seq<FrameNumsView>, max: Num)
    ensures
        ({
            let s = scored_all(fs, max);
            &&& s.rows.len() > 0 ==> s.cols.len() > 0
            &&& s.cols.len() > 0 && s.cols.contains("vmaf"@) ==> s.cols.last() == "vmaf"@
        }),
    decreases fs.len(),
{
    if fs.len() > 0 {
        lemma_rows_have_score(fs.drop_last(), max);
        let f = fs.last();
        if lookup(f.names, f.nums, "vmaf"@) is Some {
            lemma_lookup_in_names(f.names, f.nums, "vmaf"@);
        }
        let keep = |n: Seq<char>| n != "vmaf"@;
        let rest = f.names.filter(keep);
        assert forall|k: int| 0 <= k < rest.len() implies rest[k] != "vmaf"@ by {
            lemma_filter_keeps(f.names, keep, k);
        }
    }
}

proof fn lemma_filter_keeps(s: Seq<Seq<char>>, keep: spec_fn(Seq<char>) -> bool, k: int)
    requires
        0 <= k < s.filter(keep).len(),
    ensures
        keep(s.filter(keep)[k]),
    decreases s.len(),
{
    reveal(Seq::filter);
    if s.len() > 0 {
        let t = s.drop_last();
        if k < t.filter(keep).len() {
            lemma_filter_keeps(t, keep, k);
        }
    }
}

proof fn lemma_lookup_in_names(names: Seq<Seq<char>>, nums: Seq<Option<Num>>, key: Seq<char>)
    requires
        lookup(names, nums, key) is Some,
    ensures
        names.contains(key),
    decreases names.len(),
{
    if names[0] == key {
        assert(names.contains(key));
    } else {
        lemma_lookup_in_names(names.skip(1), nums.skip(1), key);
        let i = choose|i: int| 0 <= i < names.skip(1).len() && names.skip(1)[i] == key;
        assert(names[i + 1] == key);
    }
}

// ---- The end of a run ----

/// The last line that tells of a fatal error.
pub open spec fn last_fatal(ls: Seq<Seq<char>>) -> Option<Seq<char>>
    decreases ls.len(),
{
    if ls.len() == 0 {
        None
    } else if fatal(lowercase(ls.last())) {
        Some(ls.last())
    } else {
        last_fatal(ls.drop_last())
    }
}

fn last_fatal_line(stderr: &str) -> (r: Option<String>)
    ensures
        opt_text(r) == last_fatal(full_lines(stderr@)),
{
    let ls = full_lines_of(stderr);
    let ghost all = texts(ls@);
    let mut i: usize = ls.len();
    assert(all.take(i as int) =~= all);
    while i > 0
        invariant
            i <= ls@.len(),
            all == texts(ls@),
            all == full_lines(stderr@),
            last_fatal(all.take(i as int)) == last_fatal(all),
        decreases i,
    {
        i -= 1;
        assert(all[i as int] == ls@[i as int]@);
        assert(all.take(i + 1).last() == ls@[i as int]@);
        assert(all.take(i + 1).drop_last() =~= all.take(i as int));
        if is_fatal_line(ls[i].as_str()) {
            return Some(ls[i].clone());
        }
    }
    None
}

/// An exit code, or that there was none.
pub open spec fn code_text(code: Option<i32>) -> Seq<char> {
    match code {
        Some(c) => "Some("@ + dec_int(c as int) + ")"@,
        None => "None"@,
    }
}

/// Why ffmpeg failed: the last line that tells of a fatal error, else the last
/// line, else the exit code.
pub open spec fn failure_text(code: Option<i32>, stderr: Seq<char>) -> Seq<char> {
    match last_fatal(full_lines(stderr)) {
        Some(l) => l,
        None => match last_line(stderr) {
            Some(l) => l,
            None => "FFmpeg failed with code "@ + code_text(code),
        },
    }
}

fn failure_message(code: Option<i32>, stderr: &str) -> (r: String)
    ensures
        r@ == failure_text(code, stderr@),
{
    match last_fatal_line(stderr) {
        Some(l) => l,
        None => match last_err_line(stderr) {
            Some(l) => l,
            None => {
                let mut c = String::new();
                match code {
                    Some(n) => {
                        c.append("Some(");
                        c.append(dec_i64(n as i64).as_str());
                        c.append(")");
                        assert(c@ =~= code_text(code));
                    },
                    None => {
                        c.append("None");
                        assert(c@ =~= code_text(code));
                    },
                }
                let mut s = "FFmpeg failed with code ".to_owned();
                s.append(c.as_str());
                s
            },
        },
    }
}

/// The outcome of a VMAF run whose log is of no use: it was aborted, or
/// ffmpeg failed, or the log is empty. `None` where the log is to be read.
pub fn vmaf_failure(aborted: bool, code: Option<i32>, log_blank: bool, stderr: &str, exec_s: Num) -> (r:
    Option<RunOutcome>)
    ensures
        match r {
            Some(o) => if aborted {
                o@ == failed("aborted"@, exec_s)
            } else {
                (code != Some(0i32) || log_blank) && o@ == failed(failure_text(code, stderr@), exec_s)
            },
            None => !aborted && code == Some(0i32) && !log_blank,
        },
{
    if aborted {
        return Some(fail("aborted", exec_s));
    }
    let clean = match code {
        Some(c) => c == 0,
        None => false,
    };
    if !clean || log_blank {
        return Some(fail(failure_message(code, stderr).as_str(), exec_s));
    }
    None
}

/// The outcome of a VMAF run whose log was read; `None` stands for a log that
/// is not JSON.
pub fn vmaf_outcome(log: Option<VmafLog>, pooling: Pooling, stderr: &str, exec_s: Num) -> (r: RunOutcome)
    ensures
        match log {
            Some(l) => if l.values@.len() > 0 {
                r@ == (OutcomeView {
                    values: l.values@,
                    avg: match pooling {
                        Pooling::Mean => l.mean,
                        Pooling::HarmonicMean => l.harmonic_mean,
                    },
                    exec_s,
                    error: None,
                    detail: DetailView::Vmaf { cols: texts(l.cols@), rows: rows_of(l.rows@) },
                })
            } else {
                r@ == failed(no_data_text("VMAF"@, stderr@), exec_s)
            },
            None => r@ == failed(no_data_text("VMAF"@, stderr@), exec_s),
        },
{
    match log {
        Some(l) => {
            if l.values.len() > 0 {
                let avg = match pooling {
                    Pooling::Mean => l.mean,
                    Pooling::HarmonicMean => l.harmonic_mean,
                };
                return RunOutcome {
                    values: l.values,
                    avg,
                    exec_s,
                    error: None,
                    detail: FrameDetail::Vmaf { cols: l.cols, rows: l.rows },
                };
            }
        },
        None => {},
    }
    fail(no_data_message("VMAF", stderr).as_str(), exec_s)
}

// ---- What is made of a log ----

/// A frame with a score within the model's range and all features adds that
/// score and its features, in the order of the columns, behind those before
/// it, which stay as they are.
pub proof fn lemma_sound_frames_are_kept(fs: Seq<FrameNumsView>, f: FrameNumsView, max: Num, v: Num)
    requires
        max.finite(),
        lookup(f.names, f.nums, "vmaf"@) == Some(v),
        v.finite(),
        0 <= v.place() <= max.place(),
        forall|k: int|
            0 <= k < scored_all(fs.push(f), max).cols.len() ==> lookup(
                f.names,
                f.nums,
                #[trigger] scored_all(fs.push(f), max).cols[k],
            ) is Some,
    ensures
        ({
            let before = scored_all(fs, max);
            let after = scored_all(fs.push(f), max);
            &&& before.cols.len() > 0 ==> after.cols == before.cols
            &&& after.values == before.values.push(v)
            &&& after.rows.len() == before.rows.len() + 1
            &&& after.rows.drop_last() == before.rows
            &&& after.rows.last().len() == after.cols.len()
            &&& forall|k: int|
                0 <= k < after.cols.len() && lookup(f.names, f.nums, #[trigger] after.cols[k])->0.finite()
                    ==> after.rows.last()[k] == lookup(f.names, f.nums, after.cols[k])->0
        }),
{
    assert(fs.push(f).drop_last() =~= fs);
    let before = scored_all(fs, max);
    let after = scored_all(fs.push(f), max);
    assert(after == scored(before, f, max));
    assert(after.rows.drop_last() =~= before.rows);
}

/// A frame without a score, or without one of the features, is left out with
/// its score and its features.
pub proof fn lemma_unsound_frames_are_left_out(fs: Seq<FrameNumsView>, f: FrameNumsView, max: Num)
    requires
        lookup(f.names, f.nums, "vmaf"@) is None || exists|k: int|
            0 <= k < scored_all(fs.push(f), max).cols.len() && lookup(
                f.names,
                f.nums,
                #[trigger] scored_all(fs.push(f), max).cols[k],
            ) is None,
    ensures
        scored_all(fs.push(f), max).values == scored_all(fs, max).values,
        scored_all(fs.push(f), max).rows == scored_all(fs, max).rows,
{
    assert(fs.push(f).drop_last() =~= fs);
}

/// A score beyond the model's range counts as the nearer end of it; what is no
/// number counts as 0.
pub proof fn lemma_scores_are_held(v: Num, max: Num)
    requires
        max.finite(),
        max.place() >= 0,
    ensures
        v.infinite() ==> score(v, max) == max,
        v.finite() && v.place() > max.place() ==> score(v, max) == max,
        v.finite() && v.place() < 0 ==> score(v, max) == (Num { bits: 0 }),
        v.finite() && 0 <= v.place() <= max.place() ==> score(v, max) == v,
        v.nan() ==> score(v, max) == (Num { bits: 0 }),
{
}

/// A pooled value counts as it is within the model's range, and as the nearer
/// end beyond it; what is no number does not count.
pub proof fn lemma_pooled_is_held(v: Num, max: Num)
    requires
        !max.nan(),
    ensures
        v.nan() <==> sane_pooled(Some(v), max) is None,
        !v.nan() && v.place() < 0 ==> sane_pooled(Some(v), max) == Some(Num { bits: 0 }),
        !v.nan() && 0 <= v.place() <= max.place() ==> sane_pooled(Some(v), max) == Some(v),
        !v.nan() && v.place() > max.place() && v.place() >= 0 ==> sane_pooled(Some(v), max) == Some(max),
        sane_pooled(None, max) is None,
{
}

/// The number under a name is the one that stands beside its first place.
pub proof fn lemma_lookup_finds_first(names: Seq<Seq<char>>, nums: Seq<Option<Num>>, i: int)
    requires
        0 <= i < names.len(),
        names.len() == nums.len(),
        forall|j: int| 0 <= j < i ==> #[trigger] names[j] != names[i],
    ensures
        lookup(names, nums, names[i]) == nums[i],
    decreases i,
{
    if i > 0 {
        assert(names[0] != names[i]);
        assert forall|j: int| 0 <= j < i - 1 implies #[trigger] names.skip(1)[j] != names.skip(1)[i - 1] by {
            assert(names[j + 1] != names[i]);
        }
        lemma_lookup_finds_first(names.skip(1), nums.skip(1), i - 1);
    }
}

/// A log's pooled values are those under `pooled_metrics`, `vmaf` and the name
/// of the mean; its frames are those with metrics, in order, each with the
/// names and the numbers of its own members.
pub proof fn lemma_log_tells_pooled(t: Tree, p: Tree, v: Tree)
    requires
        member(t, "pooled_metrics"@) == Some(p),
        member(p, "vmaf"@) == Some(v),
    ensures
        forall|x: Tree|
            member(v, "mean"@) == Some(x) ==> log_of(t).mean == #[trigger] atom(x),
        forall|x: Tree|
            member(v, "harmonic_mean"@) == Some(x) ==> log_of(t).harmonic_mean == #[trigger] atom(x),
        member(v, "mean"@) is None ==> log_of(t).mean is None,
        member(v, "harmonic_mean"@) is None ==> log_of(t).harmonic_mean is None,
{
}

/// One more frame of a log: its members by name, where it has metrics.
pub proof fn lemma_log_keeps_frames(list: Seq<Tree>, t: Tree)
    ensures
        ({
            let before = frames_of(list);
            let after = frames_of(list.push(t));
            &&& member(t, "metrics"@) is None ==> after == before
            &&& member(t, "metrics"@) is Some && member(t, "metrics"@)->0 is Object ==> {
                let m = member(t, "metrics"@)->0->Object_0;
                let f = after.last();
                &&& after.len() == before.len() + 1
                &&& after.drop_last() == before
                &&& f.names.len() == m.len() && f.texts.len() == m.len()
                &&& forall|i: int|
                    0 <= i < m.len() ==> f.names[i] == (#[trigger] m[i]).0 && f.texts[i] == atom(m[i].1)
            }
        }),
{
    assert(list.push(t).drop_last() =~= list);
    let before = frames_of(list);
    match frame_of(t) {
        Some(f) => {
            assert(before.push(f).drop_last() =~= before);
        },
        None => {},
    }
}

/// A failed run tells the last fatal line of its error stream: no line after
/// it is fatal. Without one it tells the last line, and without any the code.
pub proof fn lemma_failures_tell_last_fatal_line(code: Option<i32>, stderr: Seq<char>, i: int)
    requires
        0 <= i < full_lines(stderr).len(),
    ensures
        fatal(lowercase(full_lines(stderr)[i])) && (forall|j: int|
            i < j < full_lines(stderr).len() ==> !fatal(lowercase(#[trigger] full_lines(stderr)[j])))
            ==> failure_text(code, stderr) == full_lines(stderr)[i],
        (forall|j: int|
            0 <= j < full_lines(stderr).len() ==> !fatal(lowercase(#[trigger] full_lines(stderr)[j])))
            ==> failure_text(code, stderr) == full_lines(stderr).last(),
{
    let ls = full_lines(stderr);
    lemma_last_fatal(ls);
    if fatal(lowercase(ls[i])) && forall|j: int|
        i < j < ls.len() ==> !fatal(lowercase(#[trigger] ls[j])) {
        let k = choose|k: int|
            0 <= k < ls.len() && last_fatal(ls) == Some(#[trigger] ls[k]) && fatal(lowercase(ls[k]))
                && forall|j: int| k < j < ls.len() ==> !fatal(lowercase(#[trigger] ls[j]));
        assert(k == i);
    }
}

proof fn lemma_last_fatal(ls: Seq<Seq<char>>)
    ensures
        match last_fatal(ls) {
            Some(l) => exists|k: int|
                0 <= k < ls.len() && last_fatal(ls) == Some(#[trigger] ls[k]) && fatal(
                    lowercase(ls[k]),
                ) && forall|j: int| k < j < ls.len() ==> !fatal(lowercase(#[trigger] ls[j])),
            None => forall|j: int| 0 <= j < ls.len() ==> !fatal(lowercase(#[trigger] ls[j])),
        },
    decreases ls.len(),
{
    if ls.len() > 0 {
        let head = ls.drop_last();
        let n = ls.len() - 1;
        if fatal(lowercase(ls.last())) {
            assert(ls[n] == ls.last());
        } else {
            lemma_last_fatal(head);
            match last_fatal(head) {
                Some(l) => {
                    let k = choose|k: int|
                        0 <= k < head.len() && last_fatal(head) == Some(#[trigger] head[k]) && fatal(
                            lowercase(head[k]),
                        ) && forall|j: int|
                            k < j < head.len() ==> !fatal(lowercase(#[trigger] head[j]));
                    assert(ls[k] == head[k]);
                    assert forall|j: int| k < j < ls.len() implies !fatal(lowercase(#[trigger] ls[j])) by {
                        if j < n {
                            assert(head[j] == ls[j]);
                        }
                    }
                },
                None => {
                    assert forall|j: int| 0 <= j < ls.len() implies !fatal(lowercase(#[trigger] ls[j])) by {
                        if j < n {
                            assert(head[j] == ls[j]);
                        }
                    }
                },
            }
        }
    }
}

/// The columns are the names of a frame in their order, each that is not the
/// score's, and then the score where the frame has one.
pub proof fn lemma_score_column_is_last(names: Seq<Seq<char>>)
    ensures
        names.contains("vmaf"@) ==> pinned(names).last() == "vmaf"@ && pinned(names).drop_last()
            == names.filter(|n: Seq<char>| n != "vmaf"@),
        !names.contains("vmaf"@) ==> pinned(names) == names.filter(|n: Seq<char>| n != "vmaf"@),
{
    let rest = names.filter(|n: Seq<char>| n != "vmaf"@);
    assert(rest.push("vmaf"@).drop_last() =~= rest);
}

} // verus!
