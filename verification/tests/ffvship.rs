use rfmetrics::metrics::ffmpeg::Trim;
use rfmetrics::metrics::ffvship::{
    build_args, counts_frame, ffvship_outcome, live_lines, live_texts, live_value, parse_live_rows,
    parse_series, pooled_avg, trim_window_frames, FfvshipKind, FrameWindow, Transcript,
};
use rfmetrics::num::Num;
use rfmetrics::probe::{Figure, MediaInfo};

fn num(v: f64) -> Num {
    Num { bits: v.to_bits() }
}

fn val(n: Num) -> f64 {
    f64::from_bits(n.bits)
}

fn read(s: &str) -> Option<Num> {
    s.parse::<f64>().ok().map(num)
}

fn figure(v: f64) -> Option<Figure> {
    Some(Figure { value: num(v), text: format!("{v}") })
}

fn info() -> MediaInfo {
    MediaInfo { fps: figure(25.0), duration: figure(100.0), ..Default::default() }
}

fn rows_of(text: &str, expected: Option<i64>, kind: FfvshipKind) -> Option<Vec<Vec<Num>>> {
    let t = live_lines(text, expected, kind.n_scores())?;
    let read: Vec<Vec<Option<Num>>> =
        t.scores.iter().map(|r| r.iter().map(|s| read(s)).collect()).collect();
    parse_live_rows(t.count, &t.index, &read)
}

fn series(text: &str, expected: Option<i64>, kind: FfvshipKind) -> Option<Vec<f64>> {
    rows_of(text, expected, kind).map(|rows| parse_series(&rows).into_iter().map(val).collect())
}

#[test]
fn series_happy_paths() {
    let text = "3\n0 95.1\n1 95.2\n2 95.3\n";
    assert_eq!(series(text, None, FfvshipKind::Ssimulacra2), Some(vec![95.1, 95.2, 95.3]));
    assert_eq!(series(text, Some(3), FfvshipKind::Ssimulacra2).unwrap().len(), 3);
    let but = "2\n0 3.1 0.5 0.2\n1 3.3 0.6 0.1\n";
    assert_eq!(series(but, None, FfvshipKind::Butteraugli), Some(vec![3.1, 3.3]));
    assert_eq!(series(text, None, FfvshipKind::Butteraugli), None);
    assert_eq!(series(text, None, FfvshipKind::Cvvdp).unwrap().len(), 3);
}

#[test]
fn series_rejects_garbage() {
    assert_eq!(series("", None, FfvshipKind::Ssimulacra2), None);
    assert_eq!(series("oops\n0 1.0\n", None, FfvshipKind::Ssimulacra2), None);
    assert_eq!(series("0\n", None, FfvshipKind::Ssimulacra2), None);
    assert_eq!(series("-2\n", None, FfvshipKind::Ssimulacra2), None);
    assert_eq!(series("3\n0 1.0\n1 2.0\n2 3.0\n", Some(2), FfvshipKind::Ssimulacra2), None);
    assert_eq!(series("2\n0 1.0\n0 2.0\n", None, FfvshipKind::Ssimulacra2), None);
    assert_eq!(series("2\n0 1.0\n2 2.0\n", None, FfvshipKind::Ssimulacra2), None);
    assert_eq!(series("2\n0 1.0\n", None, FfvshipKind::Ssimulacra2), None);
    assert_eq!(series("1\n0 inf\n", None, FfvshipKind::Ssimulacra2), None);
    assert_eq!(series("1\n0 nan\n", None, FfvshipKind::Ssimulacra2), None);
    assert_eq!(series("1\n0 1.0 extra\n", None, FfvshipKind::Ssimulacra2), None);
    assert_eq!(series("1\n0\n", None, FfvshipKind::Ssimulacra2), None);
    assert_eq!(series("1\n0 abc\n", None, FfvshipKind::Ssimulacra2), None);
    assert_eq!(series("2\n\n0 1.0\n\n1 2.0\n", None, FfvshipKind::Ssimulacra2), Some(vec![1.0, 2.0]));
}

#[test]
fn series_is_put_in_order() {
    let text = "3\n2 3.0\n0 1.0\n1 2.0\n";
    assert_eq!(series(text, None, FfvshipKind::Cvvdp), Some(vec![1.0, 2.0, 3.0]));
}

#[test]
fn series_holds_the_frames_that_it_tells() {
    let text = "1\n0 1.0\n5 2.0\n";
    assert_eq!(series(text, None, FfvshipKind::Cvvdp), None);
    assert_eq!(series("1\n0 1.0\n", None, FfvshipKind::Cvvdp), Some(vec![1.0]));
}

fn mean(v: &[f64]) -> Num {
    num(if v.is_empty() { 0.0 } else { v.iter().sum::<f64>() / v.len() as f64 })
}

fn pool(v: &[f64], kind: FfvshipKind) -> Option<f64> {
    let nums: Vec<Num> = v.iter().map(|x| num(*x)).collect();
    pooled_avg(&nums, kind, mean(v)).map(val)
}

#[test]
fn pooling_rules() {
    let v = vec![90.0, 92.0, 94.0];
    assert_eq!(pool(&v, FfvshipKind::Ssimulacra2), Some(92.0));
    assert_eq!(pool(&v, FfvshipKind::Butteraugli), Some(92.0));
    assert_eq!(pool(&v, FfvshipKind::Cvvdp), Some(94.0));
    assert_eq!(pool(&[], FfvshipKind::Cvvdp), None);
}

fn window(
    r: &MediaInfo,
    d: &MediaInfo,
    skip: Option<f64>,
    clip: Option<f64>,
) -> Result<(Vec<String>, Option<i64>), String> {
    let rate = |m: &MediaInfo| m.fps.as_ref().map(|f| val(f.value));
    let length = |m: &MediaInfo| m.duration.as_ref().map(|f| val(f.value));
    let fps = rate(r).or(rate(d)).unwrap_or(0.0);
    let frames = FrameWindow {
        start: (skip.unwrap_or(0.0) * fps) as i64,
        clip: (clip.unwrap_or(0.0) * fps).round() as i64,
        total: (length(r).or(length(d)).unwrap_or(0.0) * fps) as i64,
    };
    let trim = Trim {
        skip: skip.map(num),
        clip_dur: clip.map(num),
        start: String::new(),
        end: String::new(),
    };
    trim_window_frames(r, d, &trim, frames)
}

#[test]
fn window_frames_match_python() {
    assert_eq!(window(&info(), &info(), None, None), Ok((Vec::new(), None)));
    assert_eq!(window(&info(), &info(), Some(0.0), Some(0.0)), Ok((Vec::new(), None)));
    let (w, e) = window(&info(), &info(), Some(4.0), None).unwrap();
    assert_eq!(w, vec!["--start", "100"]);
    assert_eq!(e, None);
    let (w, e) = window(&info(), &info(), Some(4.0), Some(2.0)).unwrap();
    assert_eq!(w, vec!["--start", "100", "--end", "150"]);
    assert_eq!(e, Some(50));
    let (w, e) = window(&info(), &info(), Some(99.0), Some(10.0)).unwrap();
    assert_eq!(w, vec!["--start", "2475", "--end", "2500"]);
    assert_eq!(e, Some(25));
    let no_fps = MediaInfo::default();
    assert_eq!(
        window(&no_fps, &no_fps, Some(1.0), None),
        Err("unknown fps for skip/duration".to_owned())
    );
}

#[test]
fn window_past_the_end_expects_nothing() {
    let (w, e) = window(&info(), &info(), Some(200.0), Some(10.0)).unwrap();
    assert_eq!(w, vec!["--start", "5000", "--end", "2500"]);
    assert_eq!(e, Some(0));
}

#[test]
fn args_shape() {
    let a = build_args(
        FfvshipKind::Ssimulacra2,
        "ref.mp4",
        "dist.mp4",
        &vec!["--start".to_owned(), "100".to_owned()],
    );
    assert_eq!(
        a,
        vec![
            "-s",
            "ref.mp4",
            "-e",
            "dist.mp4",
            "-m",
            "SSIMULACRA2",
            "--live-score-output",
            "--start",
            "100"
        ]
    );
}

fn live(line: &str, n: usize) -> Option<f64> {
    let texts = live_texts(line, n)?;
    let scores: Vec<Option<Num>> = texts.iter().map(|s| read(s)).collect();
    live_value(&scores).map(val)
}

#[test]
fn live_value_takes_first_score_of_clean_lines() {
    assert_eq!(live("300", 1), None);
    assert_eq!(live("12 48.5", 1), Some(48.5));
    assert_eq!(live("12 48.5 extra", 1), None);
    assert_eq!(live("xx 48.5", 1), None);
    assert_eq!(live("12 nan", 1), None);
    assert_eq!(live("12 inf", 1), None);
    assert_eq!(live("7 9.5 10.0 2.0", 3), Some(9.5));
    assert_eq!(live("7 9.5 oops 2.0", 3), None);
    assert_eq!(live("7 9.5 10.0", 3), None);
}

#[test]
fn a_clean_line_counts_a_frame() {
    assert!(counts_frame("12 48.5"));
    assert!(!counts_frame("300"));
}

#[test]
fn the_kinds_differ_in_scores_and_pooling() {
    assert_eq!(FfvshipKind::Butteraugli.metric_arg(), "Butteraugli");
    assert_eq!(FfvshipKind::Butteraugli.n_scores(), 3);
    assert_eq!(FfvshipKind::Ssimulacra2.n_scores(), 1);
    assert!(FfvshipKind::Cvvdp.pool_last());
    assert!(!FfvshipKind::Ssimulacra2.pool_last());
}

#[test]
fn a_run_ends_with_a_mean_or_a_reason() {
    let good = ffvship_outcome(
        FfvshipKind::Ssimulacra2,
        false,
        vec![num(1.0), num(3.0)],
        "",
        num(2.0),
        num(0.5),
    );
    assert_eq!(good.avg, Some(num(2.0)));
    assert_eq!(good.error, None);
    let bad = ffvship_outcome(FfvshipKind::Cvvdp, false, Vec::new(), "boom\n", num(0.0), num(0.5));
    assert!(bad.avg.is_none());
    assert!(bad.error.is_some());
}

#[test]
fn lines_are_kept_and_frames_counted() {
    let mut t = Transcript::new();
    assert_eq!(t.take("300"), None);
    assert_eq!(t.take("0 95.1"), Some(1));
    assert_eq!(t.take("1 95.2"), Some(2));
    assert_eq!(t.text(), "300\n0 95.1\n1 95.2");
}
