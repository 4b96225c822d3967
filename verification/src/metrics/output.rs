//! What ffmpeg prints while it computes a metric: progress, per-frame
//! numbers, summaries, errors.
use vstd::prelude::*;
use crate::metrics::ffmpeg::MetricKind;
use crate::num::{hundred, one, zero, Num};
use crate::outside::{
    all_groups, group, group_in, group_of, groups, lowercase, opt_text, regex_captures,
    regex_captures_iter, regex_every, regex_first, to_lowercase,
};
use crate::text::{
    begins, chars_of, contains, full_lines, full_lines_of, holds, join, joined, lines, lines_of,
    parse_nat, parse_u64, put, starts_with, string_of, texts, trim, trim_start, trimmed,
    trimmed_start, words, words_of,
};

verus! {

// ---- Progress ----

/// The number that a group holds.
pub open spec fn group_number(g: Option<Seq<Option<Seq<char>>>>, i: int) -> Option<nat> {
    match group(g, i) {
        Some(t) => parse_nat(t, u64::MAX as nat),
        None => None,
    }
}

/// The frame number in a match of the progress pattern.
pub fn progress_from(found: &Option<Vec<Option<String>>>) -> (r: Option<u64>)
    ensures
        match r {
            Some(n) => group_number(groups(*found), 1) == Some(n as nat),
            None => group_number(groups(*found), 1) is None,
        },
{
    match group_of(found, 1) {
        Some(t) => parse_u64(t.as_str()),
        None => None,
    }
}

/// The frame counter of a statistics line (`n:12 ...`).
pub fn parse_progress(line: &str) -> (r: Option<u64>)
    ensures
        match r {
            Some(n) => group_number(regex_first("\\bn:\\s*(\\d+)"@, line@), 1) == Some(n as nat),
            None => group_number(regex_first("\\bn:\\s*(\\d+)"@, line@), 1) is None,
        },
{
    progress_from(&regex_captures("\\bn:\\s*(\\d+)", line))
}

/// Whether `m` is the greatest number in the first group of the matches.
pub open spec fn greatest_number(g: Seq<Seq<Option<Seq<char>>>>, m: Option<nat>) -> bool {
    match m {
        Some(n) => {
            &&& exists|i: int| 0 <= i < g.len() && group_number(Some(#[trigger] g[i]), 1) == Some(n)
            &&& forall|i: int|
                0 <= i < g.len() && group_number(Some(#[trigger] g[i]), 1) is Some
                    ==> group_number(Some(g[i]), 1)->0 <= n
        },
        None => forall|i: int| 0 <= i < g.len() ==> group_number(Some(#[trigger] g[i]), 1) is None,
    }
}

pub open spec fn opt_nat(o: Option<u64>) -> Option<nat> {
    match o {
        Some(n) => Some(n as nat),
        None => None,
    }
}

/// The greatest frame number in the matches of the meter pattern.
pub fn max_frame_of(found: &Vec<Vec<Option<String>>>) -> (r: Option<u64>)
    ensures
        greatest_number(all_groups(found@), opt_nat(r)),
{
    let ghost g = all_groups(found@);
    let mut best: Option<u64> = None;
    let mut i: usize = 0;
    while i < found.len()
        invariant
            i <= found@.len(),
            g == all_groups(found@),
            greatest_number(g.take(i as int), opt_nat(best)),
        decreases found.len() - i,
    {
        let number = match group_in(&found[i], 1) {
            Some(t) => parse_u64(t.as_str()),
            None => None,
        };
        let ghost now = g.take(i + 1);
        let ghost prev = g.take(i as int);
        assert(now[i as int] == g[i as int]);
        assert(opt_nat(number) == group_number(Some(now[i as int]), 1));
        assert forall|j: int| 0 <= j < i implies #[trigger] prev[j] == now[j] by {}
        let ghost old_best = best;
        match number {
            Some(n) => {
                best = match best {
                    Some(m) => if m < n {
                        Some(n)
                    } else {
                        Some(m)
                    },
                    None => Some(n),
                };
            },
            None => {},
        }
        proof {
            if best is Some {
                if best == number {
                    assert(group_number(Some(now[i as int]), 1) == Some(best->0 as nat));
                } else {
                    let w = choose|w: int|
                        0 <= w < prev.len() && group_number(Some(#[trigger] prev[w]), 1) == Some(
                            old_best->0 as nat,
                        );
                    assert(prev[w] == now[w]);
                }
            }
            assert forall|j: int|
                0 <= j < now.len() && group_number(Some(#[trigger] now[j]), 1) is Some implies best is Some
                && group_number(Some(now[j]), 1)->0 <= best->0 by {
                if j < i {
                    assert(prev[j] == now[j]);
                }
            }
        }
        i += 1;
    }
    assert(g.take(i as int) =~= g);
    best
}

/// The greatest `frame=` number in a piece of ffmpeg's error stream.
pub fn max_frame_in(text: &str) -> (r: Option<u64>)
    ensures
        greatest_number(regex_every("frame=\\s*(\\d+)"@, text@), opt_nat(r)),
{
    max_frame_of(&regex_captures_iter("frame=\\s*(\\d+)", text))
}

// ---- Per-frame numbers ----

/// A line of per-frame statistics starts with `n:`.
pub open spec fn is_stats_line(line: Seq<char>) -> bool {
    starts_with(trim_start(line), "n:"@)
}

fn stats_line(line: &str) -> (r: bool)
    ensures
        r == is_stats_line(line@),
{
    begins(trimmed_start(line).as_str(), "n:")
}

/// A text without the closing brackets at its end.
pub open spec fn cut_parens(s: Seq<char>) -> Seq<char>
    decreases s.len(),
{
    if s.len() > 0 && s.last() == ')' {
        cut_parens(s.drop_last())
    } else {
        s
    }
}

fn cut_parens_of(s: &str) -> (r: String)
    ensures
        r@ == cut_parens(s@),
{
    let v = chars_of(s);
    let mut n: usize = v.len();
    assert(v@.subrange(0, n as int) =~= v@);
    while n > 0 && v[n - 1] == ')'
        invariant
            n <= v@.len(),
            cut_parens(v@.subrange(0, n as int)) == cut_parens(v@),
        decreases n,
    {
        n -= 1;
        assert(v@.subrange(0, n + 1).drop_last() =~= v@.subrange(0, n as int));
    }
    string_of(&v, 0, n)
}

/// The pattern of a metric's per-frame number.
pub open spec fn frame_pattern(kind: MetricKind) -> Seq<char> {
    if kind is Psnr {
        "psnr_avg:(\\S+)"@
    } else {
        "All:(\\S+)"@
    }
}

/// The text of the per-frame number, given the match of the pattern.
pub open spec fn frame_text(
    line: Seq<char>,
    kind: MetricKind,
    found: Option<Seq<Option<Seq<char>>>>,
) -> Option<Seq<char>> {
    if !is_stats_line(line) {
        None
    } else {
        match kind {
            MetricKind::Psnr => group(found, 1),
            MetricKind::Ssim => match group(found, 1) {
                Some(t) => Some(cut_parens(t)),
                None => None,
            },
            _ => None,
        }
    }
}

/// The text of the per-frame number on a line, given the match of the
/// metric's pattern on it.
pub fn frame_text_from(line: &str, kind: MetricKind, found: &Option<Vec<Option<String>>>) -> (r: Option<
    String,
>)
    ensures
        opt_text(r) == frame_text(line@, kind, groups(*found)),
{
    if !stats_line(line) {
        return None;
    }
    match kind {
        MetricKind::Psnr => group_of(found, 1),
        MetricKind::Ssim => match group_of(found, 1) {
            Some(t) => Some(cut_parens_of(t.as_str())),
            None => None,
        },
        _ => None,
    }
}

/// The text of the per-frame number on a statistics line: the pooled PSNR, or
/// the pooled SSIM without closing brackets. Other metrics have none.
pub fn parse_frame_line(line: &str, kind: MetricKind) -> (r: Option<String>)
    ensures
        opt_text(r) == frame_text(line@, kind, regex_first(frame_pattern(kind), line@)),
{
    let found = match kind {
        MetricKind::Psnr => regex_captures("psnr_avg:(\\S+)", line),
        _ => regex_captures("All:(\\S+)", line),
    };
    frame_text_from(line, kind, &found)
}

/// `v` held within 0 and `hi`.
pub open spec fn held(v: Num, hi: Num) -> Num {
    if v.less(zero()) {
        zero()
    } else if hi.less(v) {
        hi
    } else {
        v
    }
}

pub fn hold(v: Num, hi: Num) -> (r: Num)
    ensures
        r == held(v, hi),
{
    if v.is_less(zero()) {
        zero()
    } else if hi.is_less(v) {
        hi
    } else {
        v
    }
}

/// What a per-frame number counts as: PSNR within 0 and 100, SSIM within 0
/// and 1; NaN does not count.
pub open spec fn frame_score(v: Num, kind: MetricKind) -> Option<Num> {
    if v.nan() {
        None
    } else if kind is Psnr {
        Some(held(v, hundred()))
    } else {
        Some(held(v, one()))
    }
}

pub fn frame_value(v: Num, kind: MetricKind) -> (r: Option<Num>)
    ensures
        r == frame_score(v, kind),
{
    if v.is_nan() {
        None
    } else {
        match kind {
            MetricKind::Psnr => Some(hold(v, hundred())),
            _ => Some(hold(v, one())),
        }
    }
}

/// A value that counts lies within the metric's range.
pub proof fn lemma_frame_scores_in_range(v: Num, kind: MetricKind)
    ensures
        match frame_score(v, kind) {
            Some(s) => {
                &&& !s.nan()
                &&& !s.less(zero())
                &&& !(if kind is Psnr {
                    hundred()
                } else {
                    one()
                }).less(s)
            },
            None => v.nan(),
        },
{
}

/// `inf` becomes 100 and `nan` becomes 0; other numbers stay.
pub open spec fn sane_db(v: Num) -> Num {
    if v.nan() {
        zero()
    } else if v.infinite() {
        hundred()
    } else {
        v
    }
}

pub fn sanitize_db(v: Num) -> (r: Num)
    ensures
        r == sane_db(v),
        r.finite(),
{
    if v.is_nan() {
        zero()
    } else if v.is_infinite() {
        hundred()
    } else {
        v
    }
}

/// The number text of a `key:number` word.
pub open spec fn keyed_text(word: Seq<char>, key: Seq<char>) -> Option<Seq<char>> {
    if starts_with(word, key + ":"@) {
        Some(cut_parens(word.skip(key.len() as int + 1)))
    } else {
        None
    }
}

/// The number texts of all `key:number` words, in order.
pub open spec fn keyed_texts(ws: Seq<Seq<char>>, key: Seq<char>) -> Seq<Seq<char>>
    decreases ws.len(),
{
    if ws.len() == 0 {
        Seq::empty()
    } else {
        let rest = keyed_texts(ws.drop_last(), key);
        match keyed_text(ws.last(), key) {
            Some(t) => rest.push(t),
            None => rest,
        }
    }
}

fn keyed_text_of(word: &str, key: &str) -> (r: Option<String>)
    ensures
        opt_text(r) == keyed_text(word@, key@),
{
    let mut head = key.to_owned();
    head.push(':');
    proof {
        reveal_strlit(":");
        assert(head@ =~= key@ + ":"@);
    }
    if begins(word, head.as_str()) {
        let v = chars_of(word);
        let k = chars_of(head.as_str());
        let tail = string_of(&v, k.len(), v.len());
        assert(tail@ =~= word@.skip(key@.len() as int + 1));
        Some(cut_parens_of(tail.as_str()))
    } else {
        None
    }
}

/// The texts on a statistics line that may be the number of a key
/// (`psnr_y:43.93`, `Y:0.98)`), in order.
pub fn stat_texts(line: &str, key: &str) -> (r: Vec<String>)
    ensures
        texts(r@) == keyed_texts(words(line@), key@),
{
    let ws = words_of(line);
    let mut r: Vec<String> = Vec::new();
    let mut i: usize = 0;
    assert(texts(r@) =~= keyed_texts(texts(ws@).take(0), key@));
    while i < ws.len()
        invariant
            i <= ws@.len(),
            texts(r@) == keyed_texts(texts(ws@).take(i as int), key@),
        decreases ws.len() - i,
    {
        assert(texts(ws@).take(i + 1).drop_last() =~= texts(ws@).take(i as int));
        assert(texts(ws@).take(i + 1).last() == ws@[i as int]@);
        if let Some(t) = keyed_text_of(ws[i].as_str(), key) {
            put(&mut r, t.as_str());
        }
        i += 1;
    }
    assert(texts(ws@).take(i as int) =~= texts(ws@));
    r
}

/// Whether a reading of a text is a number other than NaN.
pub open spec fn counts(v: Option<Num>) -> bool {
    v is Some && !v->0.nan()
}

/// Whether `r` is the first reading that is a number other than NaN.
pub open spec fn first_counting(readings: Seq<Option<Num>>, r: Option<Num>) -> bool {
    match r {
        Some(v) => exists|i: int|
            0 <= i < readings.len() && #[trigger] readings[i] == Some(v) && counts(readings[i])
                && forall|j: int| 0 <= j < i ==> !counts(#[trigger] readings[j]),
        None => forall|j: int| 0 <= j < readings.len() ==> !counts(#[trigger] readings[j]),
    }
}

/// The number of a key, given what the texts of `stat_texts` read as.
pub fn stat_num(readings: &Vec<Option<Num>>) -> (r: Option<Num>)
    ensures
        first_counting(readings@, r),
{
    let mut i: usize = 0;
    while i < readings.len()
        invariant
            i <= readings@.len(),
            forall|j: int| 0 <= j < i ==> !counts(#[trigger] readings@[j]),
        decreases readings.len() - i,
    {
        if let Some(v) = readings[i] {
            if !v.is_nan() {
                assert(readings@[i as int] == Some(v));
                return Some(v);
            }
        }
        i += 1;
    }
    None
}

/// The values that are all present, in order.
pub open spec fn all_some(v: Seq<Option<Num>>) -> Option<Seq<Num>> {
    if forall|i: int| 0 <= i < v.len() ==> #[trigger] v[i] is Some {
        Some(v.map_values(|o: Option<Num>| o->0))
    } else {
        None
    }
}

pub open spec fn opt_nums(o: Option<Vec<Num>>) -> Option<Seq<Num>> {
    match o {
        Some(v) => Some(v@),
        None => None,
    }
}

fn all_present(v: &Vec<Option<Num>>) -> (r: Option<Vec<Num>>)
    ensures
        opt_nums(r) == all_some(v@),
{
    let mut out: Vec<Num> = Vec::new();
    let mut i: usize = 0;
    while i < v.len()
        invariant
            i <= v@.len(),
            out@.len() == i,
            forall|j: int| 0 <= j < i ==> #[trigger] v@[j] == Some(out@[j]),
        decreases v.len() - i,
    {
        match v[i] {
            Some(n) => out.push(n),
            None => {
                assert(v@[i as int] is None);
                return None;
            },
        }
        i += 1;
    }
    assert(out@ =~= v@.map_values(|o: Option<Num>| o->0));
    Some(out)
}

/// A row of planes, each with `inf` as 100.
pub open spec fn db_row(planes: Seq<Option<Num>>) -> Option<Seq<Num>> {
    match all_some(planes) {
        Some(v) => Some(v.map_values(|n: Num| sane_db(n))),
        None => None,
    }
}

/// The decibel planes of one frame (PSNR: average, Y, U, V; XPSNR: Y, U, V);
/// nothing where one is missing.
pub fn parse_db_planes(planes: &Vec<Option<Num>>) -> (r: Option<Vec<Num>>)
    ensures
        opt_nums(r) == db_row(planes@),
{
    match all_present(planes) {
        Some(v) => {
            let mut out: Vec<Num> = Vec::new();
            let mut i: usize = 0;
            while i < v.len()
                invariant
                    i <= v@.len(),
                    out@ == v@.take(i as int).map_values(|n: Num| sane_db(n)),
                decreases v.len() - i,
            {
                out.push(sanitize_db(v[i]));
                i += 1;
                assert(out@ =~= v@.take(i as int).map_values(|n: Num| sane_db(n)));
            }
            assert(v@.take(i as int) =~= v@);
            Some(out)
        },
        None => None,
    }
}

/// A row of planes, each within 0 and 1.
pub open spec fn ssim_row(planes: Seq<Option<Num>>) -> Option<Seq<Num>> {
    match all_some(planes) {
        Some(v) => Some(v.map_values(|n: Num| held(n, one()))),
        None => None,
    }
}

/// The SSIM planes of one frame (Y, U, V, All); nothing where one is missing.
pub fn parse_ssim_planes(planes: &Vec<Option<Num>>) -> (r: Option<Vec<Num>>)
    ensures
        opt_nums(r) == ssim_row(planes@),
{
    match all_present(planes) {
        Some(v) => {
            let mut out: Vec<Num> = Vec::new();
            let mut i: usize = 0;
            while i < v.len()
                invariant
                    i <= v@.len(),
                    out@ == v@.take(i as int).map_values(|n: Num| held(n, one())),
                decreases v.len() - i,
            {
                out.push(hold(v[i], one()));
                i += 1;
                assert(out@ =~= v@.take(i as int).map_values(|n: Num| held(n, one())));
            }
            assert(v@.take(i as int) =~= v@);
            Some(out)
        },
        None => None,
    }
}

/// The keys of a metric's planes on a statistics line, in the order of a row.
pub open spec fn plane_keys(kind: MetricKind) -> Seq<Seq<char>> {
    match kind {
        MetricKind::Psnr => seq!["psnr_avg"@, "psnr_y"@, "psnr_u"@, "psnr_v"@],
        MetricKind::Ssim => seq!["Y"@, "U"@, "V"@, "All"@],
        _ => Seq::empty(),
    }
}

fn plane_keys_of(kind: MetricKind) -> (r: Vec<String>)
    ensures
        texts(r@) == plane_keys(kind),
{
    let mut r: Vec<String> = Vec::new();
    match kind {
        MetricKind::Psnr => {
            put(&mut r, "psnr_avg");
            put(&mut r, "psnr_y");
            put(&mut r, "psnr_u");
            put(&mut r, "psnr_v");
        },
        MetricKind::Ssim => {
            put(&mut r, "Y");
            put(&mut r, "U");
            put(&mut r, "V");
            put(&mut r, "All");
        },
        _ => {},
    }
    assert(texts(r@) =~= plane_keys(kind));
    r
}

/// The texts on a line that may be the planes of its frame, those of each key
/// together.
pub open spec fn plane_candidates(line: Seq<char>, kind: MetricKind) -> Seq<Seq<Seq<char>>> {
    if is_stats_line(line) {
        plane_keys(kind).map_values(|k: Seq<char>| keyed_texts(words(line), k))
    } else {
        Seq::empty()
    }
}

/// The texts on a statistics line that may be the planes of its frame: for
/// PSNR the average, Y, U and V; for SSIM Y, U, V and all. Other metrics and
/// other lines have none.
pub fn plane_texts(line: &str, kind: MetricKind) -> (r: Vec<Vec<String>>)
    ensures
        texts2(r@) == plane_candidates(line@, kind),
{
    let mut r: Vec<Vec<String>> = Vec::new();
    let ghost want = plane_candidates(line@, kind);
    if !stats_line(line) {
        assert(texts2(r@) =~= want);
        return r;
    }
    let keys = plane_keys_of(kind);
    let mut i: usize = 0;
    assert(texts2(r@) =~= want.take(0));
    while i < keys.len()
        invariant
            i <= keys@.len(),
            texts(keys@) == plane_keys(kind),
            is_stats_line(line@),
            want == plane_candidates(line@, kind),
            want.len() == keys@.len(),
            texts2(r@) == want.take(i as int),
        decreases keys.len() - i,
    {
        assert(plane_keys(kind)[i as int] == keys@[i as int]@);
        let found = stat_texts(line, keys[i].as_str());
        assert(want[i as int] == texts(found@));
        let ghost before = texts2(r@);
        r.push(found);
        assert(texts2(r@) =~= before.push(texts(found@)));
        assert(want.take(i + 1) =~= want.take(i as int).push(want[i as int]));
        i += 1;
    }
    assert(want.take(i as int) =~= want);
    r
}

/// The row of a frame's planes, given the number of each key.
pub open spec fn plane_row(kind: MetricKind, planes: Seq<Option<Num>>) -> Option<Seq<Num>> {
    if planes.len() == 0 {
        None
    } else if kind is Psnr {
        db_row(planes)
    } else {
        ssim_row(planes)
    }
}

/// The row of a frame's planes, given what the texts of `plane_texts` read
/// as; nothing where a plane is missing.
pub fn plane_row_of(kind: MetricKind, readings: &Vec<Vec<Option<Num>>>) -> (r: Option<Vec<Num>>)
    ensures
        exists|planes: Seq<Option<Num>>|
            #![trigger plane_row(kind, planes)]
            planes.len() == readings@.len() && (forall|i: int|
                0 <= i < planes.len() ==> first_counting(readings@[i]@, #[trigger] planes[i]))
                && opt_nums(r) == plane_row(kind, planes),
{
    let mut planes: Vec<Option<Num>> = Vec::new();
    let mut i: usize = 0;
    while i < readings.len()
        invariant
            i <= readings@.len(),
            planes@.len() == i,
            forall|j: int|
                0 <= j < i ==> first_counting(readings@[j]@, #[trigger] planes@[j]),
        decreases readings.len() - i,
    {
        planes.push(stat_num(&readings[i]));
        i += 1;
    }
    let r = if planes.len() == 0 {
        None
    } else {
        match kind {
            MetricKind::Psnr => parse_db_planes(&planes),
            _ => parse_ssim_planes(&planes),
        }
    };
    assert(opt_nums(r) == plane_row(kind, planes@));
    r
}

// ---- Summaries ----

/// The text of the pooled value on a line, given the match of the pattern.
pub open spec fn summary_text(
    line: Seq<char>,
    kind: MetricKind,
    found: Option<Seq<Option<Seq<char>>>>,
) -> Option<Seq<char>> {
    match kind {
        MetricKind::Psnr => if contains(line, "PSNR"@) {
            group(found, 1)
        } else {
            None
        },
        MetricKind::Ssim => if contains(trim(line), "SSIM"@) && !starts_with(trim(line), "n:"@) {
            group(found, 1)
        } else {
            None
        },
        _ => None,
    }
}

/// What the pooled value's pattern finds on a line.
pub open spec fn summary_found(line: Seq<char>, kind: MetricKind) -> Option<Seq<Option<Seq<char>>>> {
    if kind is Psnr {
        regex_first("average:(\\S+)"@, line)
    } else {
        regex_first("All:(\\S+)"@, trim(line))
    }
}

/// The texts of pooled values in a list of lines, the last line first.
pub open spec fn summary_texts(ls: Seq<Seq<char>>, kind: MetricKind) -> Seq<Seq<char>>
    decreases ls.len(),
{
    if ls.len() == 0 {
        Seq::empty()
    } else {
        crate::metrics::ffmpeg::maybe(
            summary_text(ls.last(), kind, summary_found(ls.last(), kind)),
        ) + summary_texts(ls.drop_last(), kind)
    }
}

/// The text of the pooled value on a line, given the match of the metric's
/// summary pattern on it.
pub fn summary_text_from(
    line: &str,
    kind: MetricKind,
    found: &Option<Vec<Option<String>>>,
) -> (r: Option<String>)
    ensures
        opt_text(r) == summary_text(line@, kind, groups(*found)),
{
    match kind {
        MetricKind::Psnr => if holds(line, "PSNR") {
            group_of(found, 1)
        } else {
            None
        },
        MetricKind::Ssim => {
            let s = trimmed(line);
            if holds(s.as_str(), "SSIM") && !begins(s.as_str(), "n:") {
                group_of(found, 1)
            } else {
                None
            }
        },
        _ => None,
    }
}

/// The texts that may be the pooled value in ffmpeg's error stream, the last
/// line's first. The first that reads as a number is the value.
pub fn parse_summary(text: &str, kind: MetricKind) -> (r: Vec<String>)
    ensures
        texts(r@) == summary_texts(lines(text@), kind),
{
    let ls = lines_of(text);
    let mut r: Vec<String> = Vec::new();
    let mut i: usize = ls.len();
    let ghost all = texts(ls@);
    assert(all.take(i as int) =~= all);
    assert(texts(r@) + summary_texts(all, kind) =~= summary_texts(all, kind));
    while i > 0
        invariant
            i <= ls@.len(),
            all == texts(ls@),
            texts(r@) + summary_texts(all.take(i as int), kind) == summary_texts(all, kind),
        decreases i,
    {
        i -= 1;
        let line = ls[i].as_str();
        let ghost r0 = texts(r@);
        let ghost now = all.take(i + 1);
        assert(now.last() == line@);
        assert(now.drop_last() =~= all.take(i as int));
        let found = match kind {
            MetricKind::Psnr => regex_captures("average:(\\S+)", line),
            _ => regex_captures("All:(\\S+)", trimmed(line).as_str()),
        };
        let t = summary_text_from(line, kind, &found);
        crate::metrics::ffmpeg::put_maybe(&mut r, &t);
        assert(texts(r@) + summary_texts(all.take(i as int), kind) =~= r0 + summary_texts(now, kind));
    }
    assert(summary_texts(all.take(0), kind) =~= Seq::empty());
    assert(texts(r@) + Seq::<Seq<char>>::empty() =~= texts(r@));
    r
}

/// Whether `r` is the first reading that is a number.
pub open spec fn first_some(readings: Seq<Option<Num>>, r: Option<Num>) -> bool {
    match r {
        Some(v) => exists|i: int|
            0 <= i < readings.len() && #[trigger] readings[i] == Some(v) && forall|j: int|
                0 <= j < i ==> #[trigger] readings[j] is None,
        None => forall|j: int| 0 <= j < readings.len() ==> #[trigger] readings[j] is None,
    }
}

/// The pooled value, given what the texts of `parse_summary` read as.
pub fn summary_value(readings: &Vec<Option<Num>>) -> (r: Option<Num>)
    ensures
        first_some(readings@, r),
{
    let mut i: usize = 0;
    while i < readings.len()
        invariant
            i <= readings@.len(),
            forall|j: int| 0 <= j < i ==> #[trigger] readings@[j] is None,
        decreases readings.len() - i,
    {
        if let Some(v) = readings[i] {
            assert(readings@[i as int] == Some(v));
            return Some(v);
        }
        i += 1;
    }
    None
}

// ---- XPSNR ----

/// Per-frame XPSNR planes.
pub const XPSNR_FRAME: &'static str = "(?i)XPSNR\\s+y:\\s*([-+]?(?:\\d+(?:\\.\\d+)?(?:[eE][-+]?\\d+)?|inf|nan))\\s+XPSNR\\s+u:\\s*([-+]?(?:\\d+(?:\\.\\d+)?(?:[eE][-+]?\\d+)?|inf|nan))\\s+XPSNR\\s+v:\\s*([-+]?(?:\\d+(?:\\.\\d+)?(?:[eE][-+]?\\d+)?|inf|nan))";

/// Pooled XPSNR planes.
pub const XPSNR_SUMMARY: &'static str = "(?i)XPSNR\\s+y:\\s*([-+]?(?:\\d+(?:\\.\\d+)?(?:[eE][-+]?\\d+)?|inf|nan))\\s+u:\\s*([-+]?(?:\\d+(?:\\.\\d+)?(?:[eE][-+]?\\d+)?|inf|nan))\\s+v:\\s*([-+]?(?:\\d+(?:\\.\\d+)?(?:[eE][-+]?\\d+)?|inf|nan))";

/// The three planes of a match.
pub open spec fn triple(found: Option<Seq<Option<Seq<char>>>>) -> Option<Seq<Seq<char>>> {
    match (group(found, 1), group(found, 2), group(found, 3)) {
        (Some(y), Some(u), Some(v)) => Some(seq![y, u, v]),
        _ => None,
    }
}

pub open spec fn opt_texts(o: Option<Vec<String>>) -> Option<Seq<Seq<char>>> {
    match o {
        Some(v) => Some(texts(v@)),
        None => None,
    }
}

fn triple_of(found: &Option<Vec<Option<String>>>) -> (r: Option<Vec<String>>)
    ensures
        opt_texts(r) == triple(groups(*found)),
{
    match (group_of(found, 1), group_of(found, 2), group_of(found, 3)) {
        (Some(y), Some(u), Some(v)) => {
            let mut out: Vec<String> = Vec::new();
            put(&mut out, y.as_str());
            put(&mut out, u.as_str());
            put(&mut out, v.as_str());
            assert(texts(out@) =~= seq![y@, u@, v@]);
            Some(out)
        },
        _ => None,
    }
}

pub open spec fn xpsnr_text(line: Seq<char>, found: Option<Seq<Option<Seq<char>>>>) -> Option<
    Seq<Seq<char>>,
> {
    if is_stats_line(line) {
        triple(found)
    } else {
        None
    }
}

/// The plane texts on a statistics line, given the match of the XPSNR pattern.
pub fn xpsnr_planes_from(line: &str, found: &Option<Vec<Option<String>>>) -> (r: Option<Vec<String>>)
    ensures
        opt_texts(r) == xpsnr_text(line@, groups(*found)),
{
    if stats_line(line) {
        triple_of(found)
    } else {
        None
    }
}

/// The Y, U and V texts of a per-frame XPSNR line.
pub fn parse_xpsnr_planes(line: &str) -> (r: Option<Vec<String>>)
    ensures
        opt_texts(r) == xpsnr_text(line@, regex_first(XPSNR_FRAME@, line@)),
{
    xpsnr_planes_from(line, &regex_captures(XPSNR_FRAME, line))
}

pub open spec fn xpsnr_summary_text(
    line: Seq<char>,
    found: Option<Seq<Option<Seq<char>>>>,
) -> Option<Seq<Seq<char>>> {
    if contains(line, "XPSNR"@) && !is_stats_line(line) {
        triple(found)
    } else {
        None
    }
}

/// The plane texts of a summary line, given the match of the XPSNR summary
/// pattern.
pub fn xpsnr_summary_from(line: &str, found: &Option<Vec<Option<String>>>) -> (r: Option<Vec<String>>)
    ensures
        opt_texts(r) == xpsnr_summary_text(line@, groups(*found)),
{
    if holds(line, "XPSNR") && !stats_line(line) {
        triple_of(found)
    } else {
        None
    }
}

/// The plane texts of pooled XPSNR values, the last line's first.
pub open spec fn xpsnr_summary_texts(ls: Seq<Seq<char>>) -> Seq<Seq<Seq<char>>>
    decreases ls.len(),
{
    if ls.len() == 0 {
        Seq::empty()
    } else {
        let rest = xpsnr_summary_texts(ls.drop_last());
        match xpsnr_summary_text(ls.last(), regex_first(XPSNR_SUMMARY@, ls.last())) {
            Some(t) => seq![t] + rest,
            None => rest,
        }
    }
}

pub open spec fn texts2(v: Seq<Vec<String>>) -> Seq<Seq<Seq<char>>> {
    v.map_values(|x: Vec<String>| texts(x@))
}

/// The plane texts that may be the pooled XPSNR, the last line's first. The
/// first of which all three read as numbers holds the value.
pub fn parse_xpsnr_summary(text: &str) -> (r: Vec<Vec<String>>)
    ensures
        texts2(r@) == xpsnr_summary_texts(lines(text@)),
{
    let ls = lines_of(text);
    let mut r: Vec<Vec<String>> = Vec::new();
    let mut i: usize = ls.len();
    let ghost all = texts(ls@);
    assert(all.take(i as int) =~= all);
    assert(texts2(r@) + xpsnr_summary_texts(all) =~= xpsnr_summary_texts(all));
    while i > 0
        invariant
            i <= ls@.len(),
            all == texts(ls@),
            texts2(r@) + xpsnr_summary_texts(all.take(i as int)) == xpsnr_summary_texts(all),
        decreases i,
    {
        i -= 1;
        let line = ls[i].as_str();
        let ghost r0 = texts2(r@);
        let ghost now = all.take(i + 1);
        assert(now.last() == line@);
        assert(now.drop_last() =~= all.take(i as int));
        if let Some(t) = xpsnr_summary_from(line, &regex_captures(XPSNR_SUMMARY, line)) {
            let ghost tv = texts(t@);
            r.push(t);
            assert(texts2(r@) =~= r0.push(tv));
        }
        assert(texts2(r@) + xpsnr_summary_texts(all.take(i as int)) =~= r0 + xpsnr_summary_texts(now));
    }
    assert(xpsnr_summary_texts(all.take(0)) =~= Seq::empty());
    assert(texts2(r@) + Seq::<Seq<Seq<char>>>::empty() =~= texts2(r@));
    r
}

/// How much each plane weighs in the pooled XPSNR.
#[derive(Debug, Clone, Copy, PartialEq, Eq, Structural)]
pub struct Weights {
    pub y: i64,
    pub u: i64,
    pub v: i64,
}

/// Whether a pixel format halves the chroma both ways.
pub open spec fn quarter_chroma(fmt: Seq<char>) -> bool {
    contains(fmt, "420"@) || contains(fmt, "nv12"@) || contains(fmt, "nv21"@)
}

/// Sample counts of the planes where the size is known, their ratios where it
/// is not; equal weights for full chroma and unknown formats.
pub open spec fn plane_weights(fmt: Seq<char>, width: Option<i64>, height: Option<i64>) -> (
    int,
    int,
    int,
) {
    let sized = width is Some && height is Some && width->0 > 0 && height->0 > 0;
    let w = width->0 as int;
    let h = height->0 as int;
    if quarter_chroma(fmt) {
        if sized {
            (w * h, ((w + 1) / 2) * ((h + 1) / 2), ((w + 1) / 2) * ((h + 1) / 2))
        } else {
            (4, 1, 1)
        }
    } else if contains(fmt, "422"@) {
        if sized {
            (w * h, ((w + 1) / 2) * h, ((w + 1) / 2) * h)
        } else {
            (2, 1, 1)
        }
    } else {
        (1, 1, 1)
    }
}

/// Whether the sample counts of a picture fit the weights.
pub open spec fn countable(width: Option<i64>, height: Option<i64>) -> bool {
    width is Some && height is Some && width->0 > 0 && height->0 > 0 ==> (width->0 + 1) * (height->0
        + 1) <= i64::MAX
}

proof fn lemma_counts_fit(w: int, h: int, a: int, b: int)
    requires
        0 <= a <= w + 1,
        0 <= b <= h + 1,
        (w + 1) * (h + 1) <= i64::MAX,
    ensures
        0 <= a * b <= i64::MAX,
{
    assert(0 <= a * b <= (w + 1) * (h + 1)) by (nonlinear_arith)
        requires
            0 <= a <= w + 1,
            0 <= b <= h + 1,
    ;
}

/// The plane weights of a pixel format written in lower case.
pub fn weights_for(fmt: &str, width: Option<i64>, height: Option<i64>) -> (r: Weights)
    requires
        countable(width, height),
    ensures
        plane_weights(fmt@, width, height) == (r.y as int, r.u as int, r.v as int),
{
    let quarter = holds(fmt, "420") || holds(fmt, "nv12") || holds(fmt, "nv21");
    let half = holds(fmt, "422");
    if let Some(w) = width {
        if let Some(h) = height {
            if w > 0 && h > 0 && (quarter || half) {
                proof {
                    assert((w + 1) * (h + 1) >= w + 1) by (nonlinear_arith)
                        requires
                            w > 0,
                            h > 0,
                    ;
                    assert((w + 1) * (h + 1) >= h + 1) by (nonlinear_arith)
                        requires
                            w > 0,
                            h > 0,
                    ;
                    lemma_counts_fit(w as int, h as int, w as int, h as int);
                    lemma_counts_fit(w as int, h as int, (w + 1) / 2, (h + 1) / 2);
                    lemma_counts_fit(w as int, h as int, (w + 1) / 2, h as int);
                }
                let y: i64 = w * h;
                let c: i64 = if quarter {
                    ((w + 1) / 2) * ((h + 1) / 2)
                } else {
                    ((w + 1) / 2) * h
                };
                return Weights { y, u: c, v: c };
            }
        }
    }
    if quarter {
        Weights { y: 4, u: 1, v: 1 }
    } else if half {
        Weights { y: 2, u: 1, v: 1 }
    } else {
        Weights { y: 1, u: 1, v: 1 }
    }
}

pub open spec fn text_or_empty(o: Option<Seq<char>>) -> Seq<char> {
    match o {
        Some(s) => s,
        None => Seq::empty(),
    }
}

/// The plane weights of a pooled XPSNR.
pub fn xpsnr_weights(pix_fmt: &Option<String>, width: Option<i64>, height: Option<i64>) -> (r: Weights)
    requires
        countable(width, height),
    ensures
        plane_weights(lowercase(text_or_empty(opt_text(*pix_fmt))), width, height) == (
            r.y as int,
            r.u as int,
            r.v as int,
        ),
{
    let fmt = match pix_fmt {
        Some(s) => to_lowercase(s.as_str()),
        None => to_lowercase(String::new().as_str()),
    };
    weights_for(fmt.as_str(), width, height)
}

// ---- Errors ----

/// The last `n` full lines of a text, joined.
pub open spec fn tail_text(text: Seq<char>, n: int) -> Seq<char> {
    let ls = full_lines(text);
    join(
        if n < ls.len() {
            ls.skip(ls.len() - n)
        } else {
            ls
        },
        "\n"@,
    )
}

/// The last `n` lines of an error stream that hold something, in order.
pub fn stderr_tail(text: &str, n: usize) -> (r: String)
    ensures
        r@ == tail_text(text@, n as int),
{
    let ls = full_lines_of(text);
    let mut kept: Vec<String> = Vec::new();
    let mut i: usize = if n < ls.len() {
        ls.len() - n
    } else {
        0
    };
    let ghost from = i as int;
    assert(texts(kept@) =~= texts(ls@).subrange(from, from));
    while i < ls.len()
        invariant
            from <= i <= ls@.len(),
            0 <= from,
            texts(kept@) == texts(ls@).subrange(from, i as int),
        decreases ls.len() - i,
    {
        put(&mut kept, ls[i].as_str());
        i += 1;
        assert(texts(kept@) =~= texts(ls@).subrange(from, i as int));
    }
    assert(texts(ls@).subrange(from, i as int) =~= texts(ls@).skip(from));
    assert(from == 0 ==> texts(ls@).skip(from) =~= texts(ls@));
    joined(&kept, "\n")
}

/// The last full line of a text.
pub open spec fn last_line(text: Seq<char>) -> Option<Seq<char>> {
    let ls = full_lines(text);
    if ls.len() > 0 {
        Some(ls.last())
    } else {
        None
    }
}

/// The last line of an error stream that holds something.
pub fn last_err_line(text: &str) -> (r: Option<String>)
    ensures
        opt_text(r) == last_line(text@),
{
    let ls = full_lines_of(text);
    if ls.len() > 0 {
        assert(texts(ls@).last() == ls@.last()@);
        Some(ls[ls.len() - 1].clone())
    } else {
        None
    }
}

/// Whether a line in lower case tells of a fatal error.
pub open spec fn fatal(lower: Seq<char>) -> bool {
    contains(lower, "option '"@) || contains(lower, "not found"@) || contains(lower, "error"@)
        || contains(lower, "could not"@)
}

pub fn fatal_in(lower: &str) -> (r: bool)
    ensures
        r == fatal(lower@),
{
    holds(lower, "option '") || holds(lower, "not found") || holds(lower, "error") || holds(
        lower,
        "could not",
    )
}

/// Whether a line of ffmpeg's error stream tells of a fatal error.
pub fn is_fatal_line(line: &str) -> (r: bool)
    ensures
        r == fatal(lowercase(line@)),
{
    fatal_in(to_lowercase(line).as_str())
}

// ---- What is made of the numbers ----

/// A per-frame number within its metric's range counts as it is. One below
/// the range counts as 0, one above it as the top: 100 for PSNR, 1 for SSIM.
pub proof fn lemma_frame_scores_keep_what_fits(v: Num, kind: MetricKind)
    requires
        !v.nan(),
    ensures
        ({
            let top = if kind is Psnr {
                Num { bits: 0x4059_0000_0000_0000 }
            } else {
                Num { bits: 0x3ff0_0000_0000_0000 }
            };
            &&& v.place() < 0 ==> frame_score(v, kind) == Some(Num { bits: 0 })
            &&& 0 <= v.place() <= top.place() ==> frame_score(v, kind) == Some(v)
            &&& v.place() > top.place() ==> frame_score(v, kind) == Some(top)
        }),
{
}

/// A finite number of decibels stays as it is; identical pictures, which have
/// no end of them, count as 100, and what is no number as 0.
pub proof fn lemma_decibels_keep_what_is_finite(v: Num)
    ensures
        v.finite() ==> sane_db(v) == v,
        v.infinite() ==> sane_db(v) == (Num { bits: 0x4059_0000_0000_0000 }),
        v.nan() ==> sane_db(v) == (Num { bits: 0 }),
        sane_db(v).finite(),
{
}

/// The brackets that close a word are no part of its number, and nothing else
/// is cut off.
pub proof fn lemma_cut_parens(s: Seq<char>)
    ensures
        cut_parens(s).len() <= s.len(),
        cut_parens(s) == s.take(cut_parens(s).len() as int),
        cut_parens(s).len() > 0 ==> cut_parens(s).last() != ')',
        forall|i: int| cut_parens(s).len() <= i < s.len() ==> #[trigger] s[i] == ')',
    decreases s.len(),
{
    if s.len() > 0 && s.last() == ')' {
        lemma_cut_parens(s.drop_last());
        let n = cut_parens(s).len() as int;
        assert(s.drop_last().take(n) =~= s.take(n));
        assert forall|i: int| n <= i < s.len() implies #[trigger] s[i] == ')' by {
            if i < s.len() - 1 {
                assert(s.drop_last()[i] == s[i]);
            }
        }
    } else {
        assert(s.take(s.len() as int) =~= s);
    }
}

/// A `key:number` word tells the number that stands behind the colon, and a
/// word of another key tells none.
pub proof fn lemma_keyed_words(word: Seq<char>, key: Seq<char>, t: Seq<char>)
    ensures
        keyed_text(key + ":"@ + t, key) == Some(cut_parens(t)),
        keyed_text(word, key) is Some ==> word.take(key.len() as int) == key && word[key.len() as int]
            == ':',
{
    reveal_strlit(":");
    let w = key + ":"@ + t;
    let k = key + ":"@;
    assert(w.skip(key.len() as int + 1) =~= t);
    assert(starts_with(w, k)) by {
        assert(w.take(k.len() as int) =~= k);
        assert(w.subrange(0, k.len() as int) =~= k);
    }
    if starts_with(word, k) {
        assert(word.take(key.len() as int) =~= key) by {
            assert forall|i: int| 0 <= i < key.len() implies word[i] == key[i] by {
                assert(k[i] == key[i]);
                assert(word.take(k.len() as int)[i] == word[i]);
                assert(word.subrange(0, k.len() as int)[i] == word[i]);
            }
        }
        assert(k[key.len() as int] == ':');
        assert(word.take(k.len() as int)[key.len() as int] == word[key.len() as int]);
        assert(word.subrange(0, k.len() as int)[key.len() as int] == word[key.len() as int]);
    }
}

/// A row holds its planes in order: decibels as they are where finite, SSIM
/// as it is between 0 and 1. There is no row where a plane is missing.
pub proof fn lemma_plane_rows_keep_planes(kind: MetricKind, planes: Seq<Option<Num>>)
    requires
        planes.len() > 0,
    ensures
        plane_row(kind, planes) is Some <==> (forall|i: int|
            0 <= i < planes.len() ==> #[trigger] planes[i] is Some),
        plane_row(kind, planes) is Some ==> {
            let row = plane_row(kind, planes)->0;
            &&& row.len() == planes.len()
            &&& forall|i: int|
                0 <= i < planes.len() && kind is Psnr && #[trigger] planes[i]->0.finite() ==> row[i]
                    == planes[i]->0
            &&& forall|i: int|
                0 <= i < planes.len() && !(kind is Psnr) && 0 <= (#[trigger] planes[i])->0.place()
                    <= 0x3ff0_0000_0000_0000int ==> row[i] == planes[i]->0
        },
{
}

/// Only statistics lines tell of frames: a line that does not start with `n:`
/// tells none, and neither does any line of a metric that has no such lines.
pub proof fn lemma_only_statistics_tell_frames(
    line: Seq<char>,
    kind: MetricKind,
    found: Option<Seq<Option<Seq<char>>>>,
)
    ensures
        !starts_with(trim_start(line), "n:"@) ==> frame_text(line, kind, found) is None
            && plane_candidates(line, kind).len() == 0 && xpsnr_text(line, found) is None,
        starts_with(trim_start(line), "n:"@) && kind is Psnr ==> frame_text(line, kind, found) == group(
            found,
            1,
        ),
        starts_with(trim_start(line), "n:"@) && kind is Ssim && group(found, 1) is Some
            && !(group(found, 1)->0.len() > 0 && group(found, 1)->0.last() == ')') ==> frame_text(
            line,
            kind,
            found,
        ) == group(found, 1),
        !(kind is Psnr || kind is Ssim) ==> frame_text(line, kind, found) is None,
{
}

/// Of several pooled values the one on the last line comes first. A line that
/// tells none makes no difference.
pub proof fn lemma_last_summary_comes_first(ls: Seq<Seq<char>>, line: Seq<char>, kind: MetricKind)
    ensures
        ({
            let before = summary_texts(ls, kind);
            let after = summary_texts(ls.push(line), kind);
            let told = summary_text(line, kind, summary_found(line, kind));
            &&& told is Some ==> after.len() == before.len() + 1 && after[0] == told->0 && after.skip(1)
                == before
            &&& told is None ==> after == before
        }),
        kind is Psnr && !contains(line, "PSNR"@) ==> summary_texts(ls.push(line), kind)
            == summary_texts(ls, kind),
        kind is Ssim && (!contains(trim(line), "SSIM"@) || starts_with(trim(line), "n:"@))
            ==> summary_texts(ls.push(line), kind) == summary_texts(ls, kind),
        kind is Psnr && contains(line, "PSNR"@) && group(regex_first("average:(\\S+)"@, line), 1) is Some
            ==> summary_texts(ls.push(line), kind)[0] == group(
            regex_first("average:(\\S+)"@, line),
            1,
        )->0,
        kind is Ssim && contains(trim(line), "SSIM"@) && !starts_with(trim(line), "n:"@) && group(
            regex_first("All:(\\S+)"@, trim(line)),
            1,
        ) is Some ==> summary_texts(ls.push(line), kind)[0] == group(
            regex_first("All:(\\S+)"@, trim(line)),
            1,
        )->0,
{
    assert(ls.push(line).drop_last() =~= ls);
    let before = summary_texts(ls, kind);
    let told = summary_text(line, kind, summary_found(line, kind));
    if told is Some {
        assert((seq![told->0] + before).skip(1) =~= before);
    } else {
        assert(Seq::<Seq<char>>::empty() + before =~= before);
    }
}

/// The same of XPSNR, where the lines of single frames never count.
pub proof fn lemma_last_planes_come_first(ls: Seq<Seq<char>>, line: Seq<char>)
    ensures
        ({
            let before = xpsnr_summary_texts(ls);
            let after = xpsnr_summary_texts(ls.push(line));
            let found = regex_first(XPSNR_SUMMARY@, line);
            let planes = group(found, 1) is Some && group(found, 2) is Some && group(found, 3) is Some;
            &&& contains(line, "XPSNR"@) && !starts_with(trim_start(line), "n:"@) && planes
                ==> after.len() == before.len() + 1 && after[0] == seq![
                group(found, 1)->0,
                group(found, 2)->0,
                group(found, 3)->0,
            ] && after.skip(1) == before
            &&& !contains(line, "XPSNR"@) || starts_with(trim_start(line), "n:"@) || !planes ==> after
                == before
        }),
{
    assert(ls.push(line).drop_last() =~= ls);
    let before = xpsnr_summary_texts(ls);
    match xpsnr_summary_text(line, regex_first(XPSNR_SUMMARY@, line)) {
        Some(t) => {
            assert((seq![t] + before).skip(1) =~= before);
        },
        None => {},
    }
}

/// The planes weigh as many samples as they have. The two chroma planes weigh
/// the same. Without subsampling all three do; where chroma is halved one way
/// luma weighs twice as much as either, and four times where it is halved both
/// ways. Odd sizes round up.
pub proof fn lemma_planes_weigh_their_samples(fmt: Seq<char>, width: Option<i64>, height: Option<i64>)
    ensures
        ({
            let (y, u, v) = plane_weights(fmt, width, height);
            let both = contains(fmt, "420"@) || contains(fmt, "nv12"@) || contains(fmt, "nv21"@);
            let across = !both && contains(fmt, "422"@);
            let sized = width is Some && height is Some && width->0 > 0 && height->0 > 0;
            let even_w = !sized || width->0 % 2 == 0;
            let even_h = !sized || height->0 % 2 == 0;
            &&& u == v
            &&& y > 0 && u > 0
            &&& !both && !across ==> y == u
            &&& both && even_w && even_h ==> y == 4 * u
            &&& across && even_w ==> y == 2 * u
            &&& both ==> y <= 4 * u
            &&& across ==> y <= 2 * u
            &&& (both || across) && sized ==> y == width->0 * height->0 && u <= y
        }),
{
    let w = width->0 as int;
    let h = height->0 as int;
    if width is Some && height is Some && w > 0 && h > 0 {
        let a = (w + 1) / 2;
        let b = (h + 1) / 2;
        assert(w <= 2 * a <= w + 1 && h <= 2 * b <= h + 1 && 1 <= a <= w && 1 <= b <= h);
        assert(w * h > 0 && a * b > 0 && a * h > 0 && w * h <= (2 * a) * (2 * b) && w * h <= (2 * a) * h
            && a * b <= w * h && a * h <= w * h) by (nonlinear_arith)
            requires
                w <= 2 * a <= w + 1,
                h <= 2 * b <= h + 1,
                1 <= a <= w,
                1 <= b <= h,
        ;
        assert((2 * a) * (2 * b) == 4 * (a * b)) by (nonlinear_arith);
        assert((2 * a) * h == 2 * (a * h)) by (nonlinear_arith);
        if width->0 % 2 == 0 {
            assert(2 * a == w);
            if height->0 % 2 == 0 {
                assert(2 * b == h);
            }
        }
    }
}

/// A text's tail are its last lines, in order, and all of them where there are
/// no more than asked for; the last line is among them.
pub proof fn lemma_tail_is_the_end(text: Seq<char>, n: int) -> (tail: Seq<Seq<char>>)
    requires
        n >= 0,
    ensures
        tail_text(text, n) == join(tail, "\n"@),
        tail.len() <= n,
        tail.len() == n || tail.len() == full_lines(text).len(),
        forall|i: int|
            0 <= i < tail.len() ==> #[trigger] tail[i] == full_lines(text)[full_lines(text).len()
                - tail.len() + i],
        n > 0 && last_line(text) is Some ==> tail.last() == last_line(text)->0,
        last_line(text) is Some <==> full_lines(text).len() > 0,
{
    let ls = full_lines(text);
    if n < ls.len() {
        ls.skip(ls.len() - n)
    } else {
        ls
    }
}

/// A line is fatal where it speaks of an error, of something that is not
/// found, of something that could not be done, or of an option; a line without
/// these words is not.
pub proof fn lemma_fatal_words(lower: Seq<char>)
    ensures
        contains(lower, "error"@) ==> fatal(lower),
        contains(lower, "not found"@) ==> fatal(lower),
        contains(lower, "could not"@) ==> fatal(lower),
        contains(lower, "option '"@) ==> fatal(lower),
        fatal(lower) ==> contains(lower, "error"@) || contains(lower, "not found"@) || contains(
            lower,
            "could not"@,
        ) || contains(lower, "option '"@),
{
}

/// The first reading that is a number counts; what is no number never does.
pub proof fn lemma_first_number_counts(readings: Seq<Option<Num>>, r: Option<Num>, i: int)
    requires
        first_counting(readings, r),
    ensures
        r is Some ==> !r->0.nan(),
        0 <= i < readings.len() && readings[i] is Some && !readings[i]->0.nan() && (forall|j: int|
            0 <= j < i ==> (#[trigger] readings[j]) is None || readings[j]->0.nan()) ==> r
            == readings[i],
        r is None && 0 <= i < readings.len() ==> readings[i] is None || readings[i]->0.nan(),
{
    if r is Some {
        let k = choose|k: int|
            0 <= k < readings.len() && #[trigger] readings[k] == r && counts(readings[k]) && forall|j: int|
                0 <= j < k ==> !counts(#[trigger] readings[j]);
        if 0 <= i < readings.len() && counts(readings[i]) {
            assert(k <= i);
        }
        if k < i {
            assert(counts(readings[k]));
        }
    } else if 0 <= i < readings.len() {
        assert(!counts(readings[i]));
    }
}

} // verus!
