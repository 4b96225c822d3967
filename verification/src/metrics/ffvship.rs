//! Metrics computed by FFVship: arguments, and the scores that it prints
//! frame by frame.
use vstd::prelude::*;
use std::collections::HashMap;
use crate::metrics::ffmpeg::{Trim, TrimView};
use crate::metrics::run::{
    fail, failed, no_data_message, no_data_text, DetailView, FrameDetail, OutcomeView, RunOutcome,
};
use crate::num::{is_nonzero, nonzero, Num};
use crate::probe::{MediaInfo, MediaView};
use crate::text::{
    dec_i64, dec_int, full_lines, full_lines_of, join, joined, parse_i64, parse_int, parse_nat,
    parse_usize, put, put_all, texts, words, words_of,
};

verus! {

broadcast use vstd::std_specs::hash::group_hash_axioms;

/// Which FFVship metric a run computes.
#[derive(Debug, Clone, Copy, PartialEq, Eq, Structural)]
pub enum FfvshipKind {
    Ssimulacra2,
    Butteraugli,
    Cvvdp,
}

impl FfvshipKind {
    pub open spec fn arg_text(self) -> Seq<char> {
        match self {
            FfvshipKind::Ssimulacra2 => "SSIMULACRA2"@,
            FfvshipKind::Butteraugli => "Butteraugli"@,
            FfvshipKind::Cvvdp => "CVVDP"@,
        }
    }

    /// The metric's name on the command line.
    pub fn metric_arg(self) -> (r: &'static str)
        ensures
            r@ == self.arg_text(),
    {
        match self {
            FfvshipKind::Ssimulacra2 => "SSIMULACRA2",
            FfvshipKind::Butteraugli => "Butteraugli",
            FfvshipKind::Cvvdp => "CVVDP",
        }
    }

    /// Scores per line: Butteraugli prints three, of which the first counts.
    pub fn n_scores(self) -> (r: usize)
        ensures
            r == (if self is Butteraugli {
                3int
            } else {
                1
            }),
    {
        match self {
            FfvshipKind::Butteraugli => 3,
            FfvshipKind::Ssimulacra2 | FfvshipKind::Cvvdp => 1,
        }
    }

    /// Whether the last frame's value stands for the whole run, not the mean.
    pub fn pool_last(self) -> (r: bool)
        ensures
            r == (self is Cvvdp),
    {
        matches!(self, FfvshipKind::Cvvdp)
    }
}

/// Frame numbers of a trim window at the inputs' frame rate.
#[derive(Debug, Clone, Copy)]
pub struct FrameWindow {
    /// The skip.
    pub start: i64,
    /// The duration.
    pub clip: i64,
    /// The length of the inputs.
    pub total: i64,
}

/// Whether a frame rate above zero is known.
pub open spec fn rate_known(reference: MediaView, dist: MediaView) -> bool {
    match crate::metrics::ffmpeg::input_rate(reference, dist) {
        Some(f) => f.value.positive(),
        None => false,
    }
}

/// The frame after the window's last.
pub open spec fn window_end(w: FrameWindow, reference: MediaView, dist: MediaView) -> int {
    let end = w.start + w.clip;
    if (reference.duration is Some || dist.duration is Some) && w.total < end {
        w.total as int
    } else {
        end
    }
}

/// The window's arguments and the number of frames to expect.
pub open spec fn window_args(
    reference: MediaView,
    dist: MediaView,
    trim: TrimView,
    w: FrameWindow,
) -> (Seq<Seq<char>>, Option<int>) {
    if nonzero(trim.clip_dur) {
        let end = window_end(w, reference, dist);
        (
            seq!["--start"@, dec_int(w.start as int), "--end"@, dec_int(end)],
            Some(
                if end < w.start {
                    0
                } else {
                    end - w.start
                },
            ),
        )
    } else if nonzero(trim.skip) {
        (seq!["--start"@, dec_int(w.start as int)], None)
    } else {
        (Seq::empty(), None)
    }
}

/// Whether a trim is set that cannot be turned into frames.
pub open spec fn window_unknown(reference: MediaView, dist: MediaView, trim: TrimView) -> bool {
    (nonzero(trim.skip) || nonzero(trim.clip_dur)) && !rate_known(reference, dist)
}

fn has_rate(ref_info: &MediaInfo, dist_info: &MediaInfo) -> (r: bool)
    ensures
        r == rate_known(ref_info@, dist_info@),
{
    match &ref_info.fps {
        Some(f) => f.value.is_positive(),
        None => match &dist_info.fps {
            Some(f) => f.value.is_positive(),
            None => false,
        },
    }
}

/// The `--start` and `--end` arguments of a trim, and how many frames the run
/// must then report; neither without a trim. A trim needs a frame rate.
pub fn trim_window_frames(
    ref_info: &MediaInfo,
    dist_info: &MediaInfo,
    trim: &Trim,
    frames: FrameWindow,
) -> (r: Result<(Vec<String>, Option<i64>), String>)
    requires
        i64::MIN <= frames.start + frames.clip <= i64::MAX,
        window_end(frames, ref_info@, dist_info@) - frames.start <= i64::MAX,
    ensures
        match r {
            Ok(w) => {
                &&& !window_unknown(ref_info@, dist_info@, trim@)
                &&& (
                    texts(w.0@),
                    match w.1 {
                        Some(n) => Some(n as int),
                        None => None,
                    },
                ) == window_args(ref_info@, dist_info@, trim@, frames)
            },
            Err(e) => {
                &&& window_unknown(ref_info@, dist_info@, trim@)
                &&& e@ == "unknown fps for skip/duration"@
            },
        },
{
    let mut args: Vec<String> = Vec::new();
    if !is_nonzero(trim.skip) && !is_nonzero(trim.clip_dur) {
        assert(texts(args@) =~= Seq::<Seq<char>>::empty());
        return Ok((args, None));
    }
    if !has_rate(ref_info, dist_info) {
        return Err("unknown fps for skip/duration".to_owned());
    }
    put(&mut args, "--start");
    put(&mut args, dec_i64(frames.start).as_str());
    if is_nonzero(trim.clip_dur) {
        let mut end: i64 = frames.start + frames.clip;
        if (ref_info.duration.is_some() || dist_info.duration.is_some()) && frames.total < end {
            end = frames.total;
        }
        put(&mut args, "--end");
        put(&mut args, dec_i64(end).as_str());
        let expected: i64 = if end < frames.start {
            0
        } else {
            end - frames.start
        };
        assert(texts(args@) =~= window_args(ref_info@, dist_info@, trim@, frames).0);
        Ok((args, Some(expected)))
    } else {
        assert(texts(args@) =~= window_args(ref_info@, dist_info@, trim@, frames).0);
        Ok((args, None))
    }
}

pub open spec fn ffvship_texts(
    kind: FfvshipKind,
    ref_path: Seq<char>,
    dist_path: Seq<char>,
    window: Seq<Seq<char>>,
) -> Seq<Seq<char>> {
    seq![
        "-s"@,
        ref_path,
        "-e"@,
        dist_path,
        "-m"@,
        kind.arg_text(),
        "--live-score-output"@,
    ] + window
}

/// The FFVship arguments of a run.
pub fn build_args(kind: FfvshipKind, ref_path: &str, dist_path: &str, window: &Vec<String>) -> (r: Vec<
    String,
>)
    ensures
        texts(r@) == ffvship_texts(kind, ref_path@, dist_path@, texts(window@)),
{
    let mut args: Vec<String> = Vec::new();
    put(&mut args, "-s");
    put(&mut args, ref_path);
    put(&mut args, "-e");
    put(&mut args, dist_path);
    put(&mut args, "-m");
    put(&mut args, kind.metric_arg());
    put(&mut args, "--live-score-output");
    put_all(&mut args, window);
    assert(texts(args@) =~= ffvship_texts(kind, ref_path@, dist_path@, texts(window@)));
    args
}

// ---- Scores ----

/// The words after the first.
pub open spec fn score_words(line: Seq<char>) -> Seq<Seq<char>> {
    words(line).skip(1)
}

/// Whether a line is a frame number and `n` more words.
pub open spec fn is_score_line(line: Seq<char>, n: nat) -> bool {
    words(line).len() == 1 + n && parse_nat(words(line)[0], usize::MAX as nat) is Some
}

/// The score lines of an output: all full lines but the first.
pub open spec fn score_lines(text: Seq<char>) -> Seq<Seq<char>> {
    full_lines(text).skip(1)
}

/// Whether the first full line is a frame count, as expected, and all others
/// are score lines.
pub open spec fn well_shaped(text: Seq<char>, expected: Option<i64>, n: nat) -> bool {
    let ls = full_lines(text);
    &&& ls.len() > 0
    &&& parse_int(ls[0], i64::MIN as int, i64::MAX as int) is Some
    &&& parse_int(ls[0], i64::MIN as int, i64::MAX as int)->0 > 0
    &&& expected is Some ==> expected->0 == parse_int(ls[0], i64::MIN as int, i64::MAX as int)->0
    &&& forall|i: int| 0 <= i < score_lines(text).len() ==> is_score_line(#[trigger] score_lines(text)[i], n)
}

/// A well-shaped output: the frame count, and for each line its frame number
/// and the texts of its scores.
#[derive(Debug)]
pub struct LiveText {
    pub count: i64,
    pub index: Vec<usize>,
    pub scores: Vec<Vec<String>>,
}

fn score_line(line: &str, n: usize) -> (r: Option<(usize, Vec<String>)>)
    ensures
        match r {
            Some(x) => {
                &&& is_score_line(line@, n as nat)
                &&& parse_nat(words(line@)[0], usize::MAX as nat) == Some(x.0 as nat)
                &&& texts(x.1@) == score_words(line@)
            },
            None => !is_score_line(line@, n as nat),
        },
{
    let ws = words_of(line);
    if ws.len() == 0 || ws.len() - 1 != n {
        return None;
    }
    assert(texts(ws@)[0] == ws@[0]@);
    match parse_usize(ws[0].as_str()) {
        Some(idx) => {
            let mut rest: Vec<String> = Vec::new();
            let mut i: usize = 1;
            assert(texts(rest@) =~= texts(ws@).subrange(1, 1));
            while i < ws.len()
                invariant
                    1 <= i <= ws@.len(),
                    texts(rest@) == texts(ws@).subrange(1, i as int),
                decreases ws.len() - i,
            {
                put(&mut rest, ws[i].as_str());
                i += 1;
                assert(texts(rest@) =~= texts(ws@).subrange(1, i as int));
            }
            assert(texts(rest@) =~= score_words(line@));
            Some((idx, rest))
        },
        None => None,
    }
}

/// Reads the shape of a whole output: the frame count first, then a line per
/// frame with its number and `n_scores` scores.
pub fn live_lines(text: &str, expected_n: Option<i64>, n_scores: usize) -> (r: Option<LiveText>)
    ensures
        match r {
            Some(t) => {
                let ls = score_lines(text@);
                &&& well_shaped(text@, expected_n, n_scores as nat)
                &&& parse_int(full_lines(text@)[0], i64::MIN as int, i64::MAX as int) == Some(
                    t.count as int,
                )
                &&& t.index@.len() == ls.len()
                &&& t.scores@.len() == ls.len()
                &&& forall|i: int|
                    0 <= i < ls.len() ==> parse_nat(words(ls[i])[0], usize::MAX as nat) == Some(
                        #[trigger] t.index@[i] as nat,
                    )
                &&& forall|i: int|
                    0 <= i < ls.len() ==> texts((#[trigger] t.scores@[i])@) == score_words(ls[i])
            },
            None => !well_shaped(text@, expected_n, n_scores as nat),
        },
{
    let ls = full_lines_of(text);
    let ghost want = score_lines(text@);
    if ls.len() == 0 {
        return None;
    }
    assert(texts(ls@)[0] == ls@[0]@);
    let count: i64 = match parse_i64(ls[0].as_str()) {
        Some(n) => n,
        None => {
            return None;
        },
    };
    if count <= 0 {
        return None;
    }
    if let Some(e) = expected_n {
        if e != count {
            return None;
        }
    }
    let mut index: Vec<usize> = Vec::new();
    let mut scores: Vec<Vec<String>> = Vec::new();
    let mut i: usize = 1;
    while i < ls.len()
        invariant
            1 <= i <= ls@.len(),
            texts(ls@) == full_lines(text@),
            want == score_lines(text@),
            index@.len() == i - 1,
            scores@.len() == i - 1,
            forall|j: int|
                0 <= j < i - 1 ==> is_score_line(#[trigger] want[j], n_scores as nat),
            forall|j: int|
                0 <= j < i - 1 ==> parse_nat(words(want[j])[0], usize::MAX as nat) == Some(
                    #[trigger] index@[j] as nat,
                ),
            forall|j: int|
                0 <= j < i - 1 ==> texts((#[trigger] scores@[j])@) == score_words(want[j]),
        decreases ls.len() - i,
    {
        assert(want[i - 1] == ls@[i as int]@) by {
            assert(texts(ls@)[i as int] == ls@[i as int]@);
        }
        match score_line(ls[i].as_str(), n_scores) {
            Some(x) => {
                index.push(x.0);
                scores.push(x.1);
            },
            None => {
                assert(!is_score_line(want[i - 1], n_scores as nat));
                return None;
            },
        }
        i += 1;
    }
    Some(LiveText { count, index, scores })
}

/// Whether every score reads as a finite number.
pub open spec fn all_finite(rows: Seq<Seq<Option<Num>>>) -> bool {
    forall|i: int, k: int|
        0 <= i < rows.len() && 0 <= k < rows[i].len() ==> (#[trigger] rows[i][k]) is Some
            && rows[i][k]->0.finite()
}

/// Whether a frame has a line.
pub open spec fn has_line(index: Seq<usize>, f: int) -> bool {
    exists|i: int| 0 <= i < index.len() && #[trigger] index[i] == f
}

/// Whether every frame from 0 to `n` has a line.
pub open spec fn covers(index: Seq<usize>, n: int) -> bool {
    forall|f: int| 0 <= f < n ==> #[trigger] has_line(index, f)
}

/// Whether no frame has two lines.
pub open spec fn no_repeat(index: Seq<usize>) -> bool {
    forall|i: int, j: int| 0 <= i < j < index.len() ==> #[trigger] index[i] != #[trigger] index[j]
}

pub open spec fn reads(rows: Seq<Vec<Option<Num>>>) -> Seq<Seq<Option<Num>>> {
    rows.map_values(|r: Vec<Option<Num>>| r@)
}

/// The scores of frame `f`, which line `i` holds.
pub open spec fn row_values(row: Seq<Option<Num>>) -> Seq<Num> {
    row.map_values(|o: Option<Num>| o->0)
}

/// Whether every score is finite and the lines are one for each frame from 0
/// to `count`.
pub open spec fn is_strict(count: int, index: Seq<usize>, rows: Seq<Seq<Option<Num>>>) -> bool {
    &&& all_finite(rows)
    &&& no_repeat(index)
    &&& covers(index, count)
    &&& index.len() == count
}

/// In a strict output every line is of a frame of the count.
pub proof fn lemma_strict_lines_are_frames(
    count: int,
    index: Seq<usize>,
    rows: Seq<Seq<Option<Num>>>,
    i: int,
)
    requires
        is_strict(count, index, rows),
        0 <= i < index.len(),
    ensures
        index[i] < count,
{
    if index[i] >= count {
        let t = index.map_values(|x: usize| x as int);
        assert(t.no_duplicates()) by {
            assert forall|a: int, b: int| 0 <= a < b < t.len() implies t[a] != t[b] by {
                assert(index[a] != index[b]);
            }
        }
        t.unique_seq_to_set();
        let rest = t.to_set().remove(t[i]);
        vstd::set_lib::lemma_int_range(0, count);
        assert forall|f: int| #[trigger] vstd::set_lib::set_int_range(0, count).contains(f) implies rest.contains(f) by {
            assert(has_line(index, f));
            let j = choose|j: int| 0 <= j < index.len() && #[trigger] index[j] == f;
            assert(t[j] == f);
        }
        assert(t.contains(t[i]));
        vstd::set_lib::lemma_len_subset(vstd::set_lib::set_int_range(0, count), rest);
    }
}

fn finite_row(row: &Vec<Option<Num>>) -> (r: Option<Vec<Num>>)
    ensures
        match r {
            Some(v) => v@ == row_values(row@) && forall|k: int|
                0 <= k < row@.len() ==> (#[trigger] row@[k]) is Some && row@[k]->0.finite(),
            None => exists|k: int|
                0 <= k < row@.len() && !((#[trigger] row@[k]) is Some && row@[k]->0.finite()),
        },
{
    let mut v: Vec<Num> = Vec::new();
    let mut k: usize = 0;
    while k < row.len()
        invariant
            k <= row@.len(),
            v@ == row_values(row@.take(k as int)),
            forall|j: int| 0 <= j < k ==> (#[trigger] row@[j]) is Some && row@[j]->0.finite(),
        decreases row.len() - k,
    {
        match row[k] {
            Some(n) => {
                if !n.is_finite() {
                    assert(!(row@[k as int] is Some && row@[k as int]->0.finite()));
                    return None;
                }
                v.push(n);
            },
            None => {
                assert(!(row@[k as int] is Some));
                return None;
            },
        }
        k += 1;
        assert(v@ =~= row_values(row@.take(k as int)));
    }
    assert(row@.take(k as int) =~= row@);
    Some(v)
}

/// The scores frame by frame, given what the score texts of a well-shaped
/// output read as: all must be finite, no frame may have two lines, and the
/// frames that have one are those of the count.
pub fn parse_live_rows(count: i64, index: &Vec<usize>, rows: &Vec<Vec<Option<Num>>>) -> (r: Option<
    Vec<Vec<Num>>,
>)
    requires
        index@.len() == rows@.len(),
        count > 0,
    ensures
        match r {
            Some(v) => {
                &&& is_strict(count as int, index@, reads(rows@))
                &&& v@.len() == count
                &&& forall|f: int, i: int|
                    0 <= f < count && 0 <= i < index@.len() && #[trigger] index@[i] == f ==> (
                    #[trigger] v@[f])@ == row_values(rows@[i]@)
            },
            None => !is_strict(count as int, index@, reads(rows@)),
        },
{
    if index.len() as u64 != count as u64 {
        return None;
    }
    let mut found: HashMap<usize, usize> = HashMap::new();
    let mut clean: Vec<Vec<Num>> = Vec::new();
    let mut i: usize = 0;
    while i < index.len()
        invariant
            i <= index@.len(),
            index@.len() == rows@.len(),
            clean@.len() == i,
            forall|j: int| 0 <= j < i ==> (#[trigger] clean@[j])@ == row_values(rows@[j]@),
            all_finite(reads(rows@.take(i as int))),
            no_repeat(index@.take(i as int)),
            forall|f: usize| #[trigger]
                found@.contains_key(f) ==> found@[f] < i && index@[found@[f] as int] == f,
            forall|j: int| 0 <= j < i ==> found@.contains_key(#[trigger] index@[j]),
        decreases index.len() - i,
    {
        match finite_row(&rows[i]) {
            Some(v) => {
                clean.push(v);
            },
            None => {
                proof {
                    let k = choose|k: int|
                        0 <= k < rows@[i as int]@.len() && !((#[trigger] rows@[i as int]@[k]) is Some
                            && rows@[i as int]@[k]->0.finite());
                    assert(reads(rows@)[i as int][k] == rows@[i as int]@[k]);
                }
                return None;
            },
        }
        let f: usize = index[i];
        let known = found.contains_key(&f);
        if known {
            proof {
                let j = found@[f] as int;
                assert(index@[j] == index@[i as int]);
            }
            return None;
        }
        found.insert(f, i);
        i += 1;
        proof {
            assert forall|a: int, k: int|
                0 <= a < reads(rows@.take(i as int)).len() && 0 <= k < reads(rows@.take(i as int))[a].len() implies (
            #[trigger] reads(rows@.take(i as int))[a][k]) is Some && reads(rows@.take(i as int))[a][k]->0.finite() by {
                if a < i - 1 {
                    assert(reads(rows@.take(i - 1))[a][k] == reads(rows@.take(i as int))[a][k]);
                } else {
                    assert(reads(rows@.take(i as int))[a][k] == rows@[a]@[k]);
                }
            }
            assert forall|a: int, b: int| 0 <= a < b < index@.take(i as int).len() implies #[trigger] index@.take(i as int)[a] != #[trigger] index@.take(i as int)[b] by {
                if b < i - 1 {
                    assert(index@.take(i - 1)[a] != index@.take(i - 1)[b]);
                } else {
                    assert(found@.contains_key(index@[a]));
                }
            }
        }
    }
    assert(rows@.take(i as int) =~= rows@);
    assert(index@.take(i as int) =~= index@);
    let mut out: Vec<Vec<Num>> = Vec::new();
    let mut f: i64 = 0;
    while f < count
        invariant
            0 <= f <= count,
            out@.len() == f,
            clean@.len() == index@.len(),
            index@.len() == rows@.len(),
            forall|j: int|
                0 <= j < index@.len() ==> (#[trigger] clean@[j])@ == row_values(rows@[j]@),
            no_repeat(index@),
            forall|g: usize| #[trigger]
                found@.contains_key(g) ==> found@[g] < index@.len() && index@[found@[g] as int] == g,
            forall|j: int| 0 <= j < index@.len() ==> found@.contains_key(#[trigger] index@[j]),
            forall|g: int, j: int|
                0 <= g < f && 0 <= j < index@.len() && #[trigger] index@[j] == g ==> (#[trigger] out@[g])@
                    == row_values(rows@[j]@),
            forall|g: int| 0 <= g < f ==> #[trigger] has_line(index@, g),
        decreases count - f,
    {
        if f as u64 > usize::MAX as u64 {
            proof {
                assert forall|j: int| 0 <= j < index@.len() implies #[trigger] index@[j] != f by {}
                assert(!has_line(index@, f as int));
            }
            return None;
        }
        let key: usize = f as usize;
        match found.get(&key) {
            Some(line) => {
                let line: usize = *line;
                let mut row: Vec<Num> = Vec::new();
                let mut k: usize = 0;
                while k < clean[line].len()
                    invariant
                        line < clean@.len(),
                        k <= clean@[line as int]@.len(),
                        row@ == clean@[line as int]@.take(k as int),
                    decreases clean@[line as int]@.len() - k,
                {
                    row.push(clean[line][k]);
                    k += 1;
                    assert(row@ =~= clean@[line as int]@.take(k as int));
                }
                assert(row@ =~= clean@[line as int]@);
                out.push(row);
                assert(index@[line as int] == f);
            },
            None => {
                assert(!has_line(index@, f as int)) by {
                    if has_line(index@, f as int) {
                        let j = choose|j: int| 0 <= j < index@.len() && #[trigger] index@[j] == f;
                        assert(found@.contains_key(index@[j]));
                    }
                }
                return None;
            },
        }
        f += 1;
    }
    Some(out)
}

/// The series of a run: the first score of each frame.
pub fn parse_series(rows: &Vec<Vec<Num>>) -> (r: Vec<Num>)
    requires
        forall|i: int| 0 <= i < rows@.len() ==> (#[trigger] rows@[i])@.len() > 0,
    ensures
        r@.len() == rows@.len(),
        forall|i: int| 0 <= i < rows@.len() ==> #[trigger] r@[i] == rows@[i]@[0],
{
    let mut r: Vec<Num> = Vec::new();
    let mut i: usize = 0;
    while i < rows.len()
        invariant
            i <= rows@.len(),
            r@.len() == i,
            forall|j: int| 0 <= j < rows@.len() ==> (#[trigger] rows@[j])@.len() > 0,
            forall|j: int| 0 <= j < i ==> #[trigger] r@[j] == rows@[j]@[0],
        decreases rows.len() - i,
    {
        r.push(rows[i][0]);
        i += 1;
    }
    r
}

pub open spec fn opt_texts(o: Option<Vec<String>>) -> Option<Seq<Seq<char>>> {
    match o {
        Some(v) => Some(texts(v@)),
        None => None,
    }
}

/// The score texts of a line that is well shaped by itself, for the live
/// curve.
pub fn live_texts(line: &str, n_scores: usize) -> (r: Option<Vec<String>>)
    ensures
        opt_texts(r) == if is_score_line(line@, n_scores as nat) {
            Some(score_words(line@))
        } else {
            None
        },
{
    match score_line(line, n_scores) {
        Some(x) => Some(x.1),
        None => None,
    }
}

/// The live value of a line, given what its score texts read as: the first,
/// where all are finite.
pub fn live_value(scores: &Vec<Option<Num>>) -> (r: Option<Num>)
    ensures
        r == if scores@.len() > 0 && (forall|k: int|
            0 <= k < scores@.len() ==> (#[trigger] scores@[k]) is Some && scores@[k]->0.finite()) {
            scores@[0]
        } else {
            None
        },
{
    match finite_row(scores) {
        Some(v) => if v.len() > 0 {
            assert(scores@[0] is Some);
            Some(v[0])
        } else {
            None
        },
        None => None,
    }
}

/// Whether a line counts as a frame for the progress: it has two words.
pub fn counts_frame(line: &str) -> (r: bool)
    ensures
        r == (words(line@).len() >= 2),
{
    let ws = words_of(line);
    assert(texts(ws@).len() == ws@.len());
    ws.len() >= 2
}

/// The pooled value: the last frame's for CVVDP, else the mean.
pub open spec fn pooled(values: Seq<Num>, kind: FfvshipKind, mean: Num) -> Option<Num> {
    if values.len() == 0 {
        None
    } else if kind is Cvvdp {
        Some(values.last())
    } else {
        Some(mean)
    }
}

/// The pooled value of a series, whose mean is given.
pub fn pooled_avg(values: &Vec<Num>, kind: FfvshipKind, mean: Num) -> (r: Option<Num>)
    ensures
        r == pooled(values@, kind, mean),
{
    if values.len() == 0 {
        None
    } else if kind.pool_last() {
        Some(values[values.len() - 1])
    } else {
        Some(mean)
    }
}

/// How an FFVship run ends.
pub open spec fn ffvship_end(
    kind: FfvshipKind,
    aborted: bool,
    values: Seq<Num>,
    stderr: Seq<char>,
    mean: Num,
    exec_s: Num,
) -> OutcomeView {
    if aborted {
        failed("aborted"@, exec_s)
    } else if values.len() == 0 {
        failed(no_data_text(kind.arg_text(), stderr), exec_s)
    } else {
        OutcomeView {
            values,
            avg: pooled(values, kind, mean),
            exec_s,
            error: None,
            detail: DetailView::Absent,
        }
    }
}

/// The outcome of an FFVship run, given the series that its output parsed to
/// (empty where it did not) and the mean of it. The exit code plays no part.
pub fn ffvship_outcome(
    kind: FfvshipKind,
    aborted: bool,
    values: Vec<Num>,
    stderr: &str,
    mean: Num,
    exec_s: Num,
) -> (r: RunOutcome)
    ensures
        r@ == ffvship_end(kind, aborted, values@, stderr@, mean, exec_s),
{
    if aborted {
        return fail("aborted", exec_s);
    }
    if values.len() == 0 {
        return fail(no_data_message(kind.metric_arg(), stderr).as_str(), exec_s);
    }
    let avg = pooled_avg(&values, kind, mean);
    RunOutcome { values, avg, exec_s, error: None, detail: FrameDetail::Absent }
}

/// The live value of a line is the one that the whole output gives its frame.
pub proof fn lemma_live_value_is_final_value(
    count: int,
    index: Seq<usize>,
    rows: Seq<Seq<Option<Num>>>,
    series: Seq<Seq<Num>>,
    i: int,
)
    requires
        0 <= i < index.len(),
        index.len() == rows.len(),
        all_finite(rows),
        0 <= index[i] < count,
        series.len() == count,
        forall|f: int, j: int|
            0 <= f < count && 0 <= j < index.len() && #[trigger] index[j] == f ==> (#[trigger] series[f])
                == row_values(rows[j]),
        rows[i].len() > 0,
    ensures
        rows[i][0] == Some(series[index[i] as int][0]),
{
    assert(series[index[i] as int] == row_values(rows[i]));
    assert(rows[i][0] is Some);
}

// ---- What was printed ----

/// The lines of a run so far, and how many frames they tell of.
#[derive(Debug)]
pub struct Transcript {
    pub lines: Vec<String>,
    pub frames: u64,
}

/// Whether a line tells of a frame: it has at least two words.
pub open spec fn tells_frame(line: Seq<char>) -> bool {
    words(line).len() >= 2
}

impl Transcript {
    pub fn new() -> (r: Transcript)
        ensures
            texts(r.lines@) == Seq::<Seq<char>>::empty(),
            r.frames == 0,
    {
        let r = Transcript { lines: Vec::new(), frames: 0 };
        assert(texts(r.lines@) =~= Seq::<Seq<char>>::empty());
        r
    }

    /// Takes one more line; returns the number of frames where it tells of
    /// one.
    pub fn take(&mut self, line: &str) -> (r: Option<u64>)
        requires
            old(self).frames < u64::MAX,
        ensures
            texts(final(self).lines@) == texts(old(self).lines@).push(line@),
            final(self).frames == old(self).frames + (if tells_frame(line@) {
                1int
            } else {
                0
            }),
            r == (if tells_frame(line@) {
                Some(final(self).frames)
            } else {
                None
            }),
    {
        put(&mut self.lines, line);
        if counts_frame(line) {
            self.frames = self.frames + 1;
            Some(self.frames)
        } else {
            None
        }
    }

    /// All that was printed.
    pub fn text(&self) -> (r: String)
        ensures
            r@ == join(texts(self.lines@), "\n"@),
    {
        joined(&self.lines, "\n")
    }
}

// ---- What is asked of FFVship ----

/// The reference is the source and the distorted file what was encoded, and
/// the metric is asked for by its name.
pub proof fn lemma_files_have_their_parts(
    kind: FfvshipKind,
    ref_path: Seq<char>,
    dist_path: Seq<char>,
    window: Seq<Seq<char>>,
)
    ensures
        ({
            let args = ffvship_texts(kind, ref_path, dist_path, window);
            &&& args.len() == 7 + window.len()
            &&& args[0] == "-s"@ && args[1] == ref_path
            &&& args[2] == "-e"@ && args[3] == dist_path
            &&& args[4] == "-m"@
            &&& kind is Ssimulacra2 ==> args[5] == "SSIMULACRA2"@
            &&& kind is Butteraugli ==> args[5] == "Butteraugli"@
            &&& kind is Cvvdp ==> args[5] == "CVVDP"@
            &&& forall|i: int| 0 <= i < window.len() ==> args[7 + i] == #[trigger] window[i]
        }),
{
}

/// A window starts at its first frame. Where a length is set it ends as many
/// frames later, but not behind the end of a file whose length is known, and
/// as many frames are expected as lie between. No trim is no window.
pub proof fn lemma_windows_hold_the_clip(
    reference: MediaView,
    dist: MediaView,
    trim: TrimView,
    w: FrameWindow,
) -> (end: int)
    requires
        w.start >= 0,
        w.clip >= 0,
    ensures
        ({
            let (args, expected) = window_args(reference, dist, trim, w);
            let clips = trim.clip_dur is Some && !trim.clip_dur->0.zero();
            let skips = trim.skip is Some && !trim.skip->0.zero();
            &&& clips ==> {
                &&& args == seq!["--start"@, dec_int(w.start as int), "--end"@, dec_int(end)]
                &&& end <= w.start + w.clip
                &&& reference.duration is Some || dist.duration is Some ==> end <= w.total
                &&& end == w.start + w.clip || end == w.total
                &&& reference.duration is None && dist.duration is None ==> end == w.start + w.clip
                &&& expected is Some && expected->0 >= 0
                &&& end >= w.start ==> expected->0 == end - w.start
                &&& end < w.start ==> expected->0 == 0
            }
            &&& !clips && skips ==> args == seq!["--start"@, dec_int(w.start as int)] && expected is None
            &&& !clips && !skips ==> args.len() == 0 && expected is None
        }),
{
    window_end(w, reference, dist)
}

/// A trim needs a frame rate above zero: the reference's, or the distorted
/// file's where the reference has none.
pub proof fn lemma_windows_need_a_rate(reference: MediaView, dist: MediaView, trim: TrimView)
    ensures
        ({
            let trims = (trim.skip is Some && !trim.skip->0.zero()) || (trim.clip_dur is Some
                && !trim.clip_dur->0.zero());
            let rate = if reference.fps is Some {
                reference.fps
            } else {
                dist.fps
            };
            window_unknown(reference, dist, trim) <==> trims && !(rate is Some && rate->0.value.positive())
        }),
{
}

/// A run with scores keeps all of them, and pools CVVDP by its last score, for
/// each is that of all frames so far, and the others by their mean. A run
/// without any fails.
pub proof fn lemma_runs_keep_scores(
    kind: FfvshipKind,
    aborted: bool,
    values: Seq<Num>,
    stderr: Seq<char>,
    mean: Num,
    exec_s: Num,
)
    ensures
        ({
            let end = ffvship_end(kind, aborted, values, stderr, mean, exec_s);
            &&& end.error is Some <==> aborted || values.len() == 0
            &&& end.error is Some ==> end.values.len() == 0 && end.avg is None
            &&& aborted ==> end.error == Some("aborted"@)
            &&& end.error is None ==> end.values == values
            &&& end.error is None && kind is Cvvdp ==> end.avg == Some(values[values.len() - 1])
            &&& end.error is None && !(kind is Cvvdp) ==> end.avg == Some(mean)
            &&& end.exec_s == exec_s
        }),
{
}

/// The words of a score line are a frame number and its scores, which follow
/// it in order.
pub proof fn lemma_scores_follow_frame_number(line: Seq<char>, n: nat, k: int)
    requires
        is_score_line(line, n),
        0 <= k < n,
    ensures
        score_words(line).len() == n,
        score_words(line)[k] == words(line)[k + 1],
        parse_nat(words(line)[0], usize::MAX as nat) is Some,
{
}

} // verus!
