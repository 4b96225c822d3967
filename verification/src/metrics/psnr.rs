//! PSNR runs with ffmpeg's default scaler and without colour-range tags.
use vstd::prelude::*;
use vstd::string::StringExecFns;
use crate::metrics::ffmpeg::{
    fit_text, format_segment, format_text, has_filter, has_scale_to, lemma_other_segments,
    lemma_scale_is_no_other, lemma_scale_segment, maybe, norm_text, put_maybe, rate_args,
    rate_texts, scales_to, MetricKind, ScaleMethod, Trim, TrimView,
};
use crate::metrics::output;
use crate::metrics::output::{frame_pattern, frame_text, group_number, summary_texts};
use crate::outside::{opt_text, regex_first};
use crate::probe::{MediaInfo, MediaView};
use crate::text::{join, joined, lines, put, put_all, starts_with, texts};

verus! {

/// The text of the per-frame PSNR on a statistics line.
pub fn parse_frame_line(line: &str) -> (r: Option<String>)
    ensures
        opt_text(r) == frame_text(
            line@,
            MetricKind::Psnr,
            regex_first(frame_pattern(MetricKind::Psnr), line@),
        ),
{
    output::parse_frame_line(line, MetricKind::Psnr)
}

/// The frame counter of a statistics line (`n:12 ...`).
pub fn parse_progress(line: &str) -> (r: Option<u64>)
    ensures
        match r {
            Some(n) => group_number(regex_first("\\bn:\\s*(\\d+)"@, line@), 1) == Some(n as nat),
            None => group_number(regex_first("\\bn:\\s*(\\d+)"@, line@), 1) is None,
        },
{
    output::parse_progress(line)
}

/// The texts that may be the pooled PSNR in ffmpeg's error stream, the last
/// line's first.
pub fn parse_summary(text: &str) -> (r: Vec<String>)
    ensures
        texts(r@) == summary_texts(lines(text@), MetricKind::Psnr),
{
    output::parse_summary(text, MetricKind::Psnr)
}

/// The `trim` segment, where a skip or a duration is set.
pub open spec fn set_window(t: TrimView) -> Option<Seq<char>> {
    if t.clip_dur is Some {
        Some("trim=start="@ + t.start + ":end="@ + t.end)
    } else if t.skip is Some {
        Some("trim=start="@ + t.start)
    } else {
        None
    }
}

fn set_segment(trim: &Trim) -> (r: Option<String>)
    ensures
        opt_text(r) == set_window(trim@),
{
    if trim.skip.is_some() || trim.clip_dur.is_some() {
        let mut s = "trim=start=".to_owned();
        s.append(trim.start.as_str());
        if trim.clip_dur.is_some() {
            s.append(":end=");
            s.append(trim.end.as_str());
        }
        Some(s)
    } else {
        None
    }
}

/// The filtergraph of a PSNR run.
pub open spec fn psnr_graph(reference: MediaView, dist: MediaView, trim: TrimView) -> Seq<char> {
    "[0:v]"@ + join(
        maybe(set_window(trim)) + seq![norm_text()] + maybe(
            crate::metrics::ffmpeg::fit_text(reference, dist, ScaleMethod::FfmpegDefault),
        ) + maybe(format_text(reference, dist)),
        ","@,
    ) + "[main];[1:v]"@ + join(maybe(set_window(trim)) + seq![norm_text()], ","@)
        + "[ref];[main][ref]psnr=eof_action=endall:stats_file=-"@
}

/// The filtergraph of a PSNR run: the distorted file is scaled and converted
/// to meet the reference, which is only trimmed.
pub fn filtergraph(ref_info: &MediaInfo, dist_info: &MediaInfo, trim: &Trim) -> (r: String)
    ensures
        r@ == psnr_graph(ref_info@, dist_info@, trim@),
{
    let window = set_segment(trim);
    let mut pre: Vec<String> = Vec::new();
    put_maybe(&mut pre, &window);
    put(&mut pre, "settb=AVTB,setpts=PTS-STARTPTS");
    assert(texts(pre@) =~= maybe(set_window(trim@)) + seq![norm_text()]);
    let mut leg: Vec<String> = Vec::new();
    put_all(&mut leg, &pre);
    assert(texts(leg@) =~= texts(pre@));
    put_maybe(
        &mut pre,
        &crate::metrics::ffmpeg::fit_segment(ref_info, dist_info, ScaleMethod::FfmpegDefault),
    );
    put_maybe(&mut pre, &format_segment(ref_info, dist_info));
    let mut s = "[0:v]".to_owned();
    s.append(joined(&pre, ",").as_str());
    s.append("[main];[1:v]");
    s.append(joined(&leg, ",").as_str());
    s.append("[ref];[main][ref]psnr=eof_action=endall:stats_file=-");
    s
}

pub open spec fn psnr_texts(
    ref_path: Seq<char>,
    dist_path: Seq<char>,
    rate: Seq<Seq<char>>,
    graph: Seq<char>,
) -> Seq<Seq<char>> {
    seq!["-hide_banner"@, "-nostdin"@] + rate + seq!["-i"@, dist_path] + rate + seq![
        "-i"@,
        ref_path,
        "-filter_complex"@,
        graph,
        "-f"@,
        "null"@,
        "-"@,
    ]
}

/// The ffmpeg arguments of a PSNR run.
pub fn build_args(
    ref_path: &str,
    dist_path: &str,
    ref_info: &MediaInfo,
    dist_info: &MediaInfo,
    trim: &Trim,
) -> (r: Vec<String>)
    ensures
        texts(r@) == psnr_texts(
            ref_path@,
            dist_path@,
            rate_texts(ref_info@, dist_info@),
            psnr_graph(ref_info@, dist_info@, trim@),
        ),
{
    let rate = rate_args(ref_info, dist_info);
    let graph = filtergraph(ref_info, dist_info, trim);
    let mut args: Vec<String> = Vec::new();
    put(&mut args, "-hide_banner");
    put(&mut args, "-nostdin");
    put_all(&mut args, &rate);
    put(&mut args, "-i");
    put(&mut args, dist_path);
    put_all(&mut args, &rate);
    put(&mut args, "-i");
    put(&mut args, ref_path);
    put(&mut args, "-filter_complex");
    put(&mut args, graph.as_str());
    put(&mut args, "-f");
    put(&mut args, "null");
    put(&mut args, "-");
    assert(texts(args@) =~= psnr_texts(ref_path@, dist_path@, texts(rate@), graph@));
    args
}

// ---- What the graph does ----

/// Whether a leg first cuts the times that are set, and then starts its clock
/// at zero.
pub open spec fn starts_set(leg: Seq<Seq<char>>, t: TrimView) -> bool {
    let clock = "settb=AVTB,setpts=PTS-STARTPTS"@;
    if t.clip_dur is Some {
        leg.len() >= 2 && leg[0] == "trim=start="@ + t.start + ":end="@ + t.end && leg[1] == clock
    } else if t.skip is Some {
        leg.len() >= 2 && leg[0] == "trim=start="@ + t.start && leg[1] == clock
    } else {
        leg.len() >= 1 && leg[0] == clock
    }
}

/// The graph compares like with like. The first input is the distorted file,
/// the second the reference. Both legs cut the same times off and start their
/// clocks at zero. The distorted picture is scaled to the reference's size
/// exactly where that is known and the width or the height is another, and
/// converted last, to the reference's pixel format, where that is known and
/// another. Nothing else is done to the reference.
pub proof fn lemma_graph_compares_like_with_like(
    reference: MediaView,
    dist: MediaView,
    trim: TrimView,
) -> (legs: (Seq<Seq<char>>, Seq<Seq<char>>))
    ensures
        psnr_graph(reference, dist, trim) == "[0:v]"@ + join(legs.0, ","@) + "[main];[1:v]"@ + join(
            legs.1,
            ","@,
        ) + "[ref];[main][ref]psnr=eof_action=endall:stats_file=-"@,
        starts_set(legs.0, trim) && starts_set(legs.1, trim),
        legs.1.len() == (if trim.skip is Some || trim.clip_dur is Some {
            2int
        } else {
            1
        }),
        ({
            let sized = reference.width is Some && reference.height is Some;
            let differs = dist.width != reference.width || dist.height != reference.height;
            &&& sized && differs ==> has_scale_to(
                legs.0,
                reference.width->0 as int,
                reference.height->0 as int,
            )
            &&& has_filter(legs.0, "scale="@) ==> sized && differs
        }),
        ({
            let differs = reference.pix_fmt is Some && dist.pix_fmt != reference.pix_fmt;
            &&& differs ==> legs.0.last() == "format="@ + reference.pix_fmt->0
            &&& has_filter(legs.0, "format="@) ==> differs
        }),
{
    let head = maybe(set_window(trim)) + seq![norm_text()];
    let fit = fit_text(reference, dist, ScaleMethod::FfmpegDefault);
    let fmt = format_text(reference, dist);
    let a = head + maybe(fit) + maybe(fmt);
    let n = head.len() as int;
    let k = n + maybe(fit).len();
    let (w, h) = (reference.width->0 as int, reference.height->0 as int);
    lemma_other_segments(trim, Seq::empty(), reference.pix_fmt->0);
    lemma_scale_segment(w, h, ScaleMethod::FfmpegDefault);
    lemma_scale_is_no_other(w, h, ScaleMethod::FfmpegDefault);
    let all = seq![
        "trim=start="@ + trim.start + ":end="@ + trim.end,
        "trim=start="@ + trim.start,
        "settb=AVTB,setpts=PTS-STARTPTS"@,
    ];
    assert forall|i: int| 0 <= i < n implies !starts_with(#[trigger] head[i], "scale="@)
        && !starts_with(head[i], "format="@) by {
        assert(head[i] == all[0] || head[i] == all[1] || head[i] == all[2]);
    }
    assert forall|i: int| 0 <= i < n implies a[i] == head[i] by {}
    if fit is Some {
        assert(scales_to(a[n], w, h));
    }
    if fmt is Some {
        assert(a[k] == fmt->0 && a.last() == a[k]);
    }
    assert forall|i: int| 0 <= i < a.len() && #[trigger] starts_with(a[i], "scale="@) implies fit is Some by {
        if i < n {
            assert(a[i] == head[i]);
        }
    }
    assert forall|i: int| 0 <= i < a.len() && #[trigger] starts_with(a[i], "format="@) implies fmt is Some by {
        if i < n {
            assert(a[i] == head[i]);
        }
    }
    (a, head)
}

/// The first input of a run is the distorted file and the second the
/// reference, both read at one rate where one is known.
pub proof fn lemma_inputs_stand_in_order(
    reference: MediaView,
    dist: MediaView,
    ref_path: Seq<char>,
    dist_path: Seq<char>,
    graph: Seq<char>,
)
    ensures
        ({
            let args = psnr_texts(ref_path, dist_path, rate_texts(reference, dist), graph);
            let known = reference.fps is Some || dist.fps is Some;
            let rate = if reference.fps is Some {
                reference.fps->0.text
            } else {
                dist.fps->0.text
            };
            let i: int = if known {
                4
            } else {
                2
            };
            let j: int = if known {
                8
            } else {
                4
            };
            &&& args.len() == j + 7
            &&& args[i] == "-i"@ && args[i + 1] == dist_path
            &&& args[j] == "-i"@ && args[j + 1] == ref_path
            &&& known ==> args[i - 2] == "-r"@ && args[i - 1] == rate && args[j - 2] == "-r"@ && args[j
                - 1] == rate
            &&& args[j + 2] == "-filter_complex"@ && args[j + 3] == graph
        }),
{
}

} // verus!
