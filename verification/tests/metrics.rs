use rfmetrics::metrics::badframes::{
    count_labels_of, export_dest_for, ffmpeg_args, frame_of, stride_for, tmp_dest_for,
    tmp_dest_ref_for, worst_n,
};
use rfmetrics::metrics::csv::{csv_path_for, csv_text, fmt_num, render, CsvCfg};
use rfmetrics::metrics::ffmpeg::{
    build_args, filtergraph, rate_args, scale_filter, setrange_segment, trim_window, MetricKind,
    ScaleMethod, Trim,
};
use rfmetrics::metrics::output::{
    frame_value, is_fatal_line, last_err_line, max_frame_in, parse_db_planes, parse_frame_line,
    parse_progress, parse_ssim_planes, parse_summary, parse_xpsnr_planes, parse_xpsnr_summary,
    sanitize_db, plane_row_of, plane_texts, stat_num, stat_texts, stderr_tail, xpsnr_weights, Weights,
};
use rfmetrics::metrics::results::{
    app_dir, append_text, default_results_path, header, options_for, row, Block, ResultsRow,
};
use rfmetrics::metrics::run::{
    fail, frame_from, metric_outcome, Frame, FrameDetail, HighMark, Live, Segments, Series,
};
use rfmetrics::metrics::vmaf::{
    build_filter, is_v1_model, leg_model_scale, list_models, model_candidates, model_resolution,
    model_score_max, resolve_model, valid_model_name, Inputs, LegFormats, Pooling, VmafCfg,
};
use rfmetrics::metrics::vmaf_log::{
    parse_vmaf_log, read_vmaf_log, vmaf_failure, vmaf_outcome, FrameNums, VmafLog,
};
use rfmetrics::num::Num;
use rfmetrics::probe::{Figure, MediaInfo};

fn num(v: f64) -> Num {
    Num { bits: v.to_bits() }
}

fn val(n: Num) -> f64 {
    f64::from_bits(n.bits)
}

fn vals(v: &[Num]) -> Vec<f64> {
    v.iter().map(|n| val(*n)).collect()
}

fn read(s: &str) -> Option<Num> {
    s.parse::<f64>().ok().map(num)
}

fn strings(v: &[&str]) -> Vec<String> {
    v.iter().map(|s| s.to_string()).collect()
}

fn trim(skip: Option<f64>, clip: Option<f64>) -> Trim {
    let start = skip.unwrap_or(0.0);
    Trim {
        skip: skip.map(num),
        clip_dur: clip.map(num),
        start: format!("{start}"),
        end: format!("{}", start + clip.unwrap_or(0.0)),
    }
}

fn media(w: i64, h: i64) -> MediaInfo {
    MediaInfo {
        width: Some(w),
        height: Some(h),
        fps: Some(Figure { value: num(25.0), text: "25".to_owned() }),
        pix_fmt: Some("yuv420p".to_owned()),
        ..Default::default()
    }
}

// ---- Filtergraphs ----

#[test]
fn metrics_run_in_a_fixed_order() {
    let names: Vec<&str> = MetricKind::all().into_iter().map(|k| k.name()).collect();
    assert_eq!(names, vec!["PSNR", "SSIM", "VMAF", "XPSNR", "SSIM2", "BUTTER", "CVVDP"]);
    assert!(MetricKind::Ssim2.is_ffvship());
    assert!(!MetricKind::Vmaf.is_ffvship());
    assert!(!MetricKind::Vmaf.streams_live_values());
    assert_eq!(MetricKind::Vmaf.filter(), "libvmaf");
    assert_eq!(MetricKind::Xpsnr.order(), "[ref][main]");
    assert_eq!(MetricKind::Psnr.order(), "[main][ref]");
    assert!(MetricKind::Psnr.ffvship_kind().is_none());
}

#[test]
fn scaling_methods_are_found_by_their_labels() {
    for m in ScaleMethod::all() {
        assert_eq!(ScaleMethod::from_label(m.label()), Some(m));
    }
    assert_eq!(ScaleMethod::from_label("bicubic"), None);
    assert_eq!(scale_filter(1920, 1080, ScaleMethod::Lanczos), "scale=1920:1080:flags=lanczos");
    assert_eq!(scale_filter(1920, 1080, ScaleMethod::FfmpegDefault), "scale=1920:1080");
}

#[test]
fn a_zero_trim_is_no_trim() {
    assert_eq!(trim_window(&trim(Some(0.0), Some(0.0))), Vec::<String>::new());
    assert_eq!(trim_window(&trim(None, None)), Vec::<String>::new());
    assert_eq!(trim_window(&trim(Some(1.5), Some(0.0))), vec!["trim=start=1.5"]);
    assert_eq!(trim_window(&trim(None, Some(4.0))), vec!["trim=start=0:end=4"]);
    assert_eq!(trim_window(&trim(Some(1.0), Some(4.0))), vec!["trim=start=1:end=5"]);
}

#[test]
fn known_ranges_are_tagged() {
    assert_eq!(setrange_segment(&Some("tv".to_owned())), Some("setrange=range=tv".to_owned()));
    assert_eq!(setrange_segment(&Some("odd".to_owned())), None);
    assert_eq!(setrange_segment(&None), None);
}

#[test]
fn graphs_fit_the_distorted_file() {
    let mut reference = media(1920, 1080);
    reference.range_tag = Some("tv".to_owned());
    let mut dist = media(1280, 720);
    dist.range_tag = Some("pc".to_owned());
    dist.pix_fmt = Some("yuv444p".to_owned());
    let g = filtergraph(MetricKind::Xpsnr, &reference, &dist, &trim(Some(2.0), None), ScaleMethod::Bicubic);
    assert_eq!(
        g,
        "[0:v]trim=start=2,settb=AVTB,setpts=PTS-STARTPTS,scale=1920:1080:flags=bicubic,\
         setrange=range=pc,format=yuv420p[main];\
         [1:v]trim=start=2,settb=AVTB,setpts=PTS-STARTPTS,setrange=range=tv[ref];\
         [ref][main]xpsnr=eof_action=endall:stats_file=-"
    );
}

#[test]
fn matching_streams_pass_through() {
    let m = media(640, 480);
    let g = filtergraph(MetricKind::Ssim, &m, &media(640, 480), &trim(None, None), ScaleMethod::Sinc);
    assert_eq!(
        g,
        "[0:v]settb=AVTB,setpts=PTS-STARTPTS[main];[1:v]settb=AVTB,setpts=PTS-STARTPTS[ref];\
         [main][ref]ssim=eof_action=endall:stats_file=-"
    );
}

#[test]
fn both_inputs_get_one_rate() {
    let a = build_args(
        MetricKind::Psnr,
        "r.mkv",
        "d.mkv",
        &media(2, 2),
        &media(2, 2),
        &trim(None, None),
        ScaleMethod::Bicubic,
    );
    assert_eq!(a[..4], ["-hide_banner", "-nostdin", "-probesize", "50M"]);
    assert_eq!(a[4..12], ["-r", "25", "-i", "d.mkv", "-r", "25", "-i", "r.mkv"]);
    assert_eq!(a[12], "-filter_complex");
    assert_eq!(a[14..], ["-f", "null", "-"]);
    let none = MediaInfo::default();
    assert_eq!(rate_args(&none, &none), Vec::<String>::new());
    assert_eq!(rate_args(&none, &media(1, 1)), vec!["-r", "25"]);
}

// ---- Output ----

#[test]
fn ssim_lines_are_read() {
    let line = "n:1 Y:0.98 U:0.99 V:0.97 All:0.985210 (18.3)";
    assert_eq!(parse_frame_line(line, MetricKind::Ssim), Some("0.985210".to_owned()));
    assert_eq!(parse_frame_line("n:1 All:0.5)", MetricKind::Ssim), Some("0.5".to_owned()));
    assert_eq!(parse_frame_line(line, MetricKind::Vmaf), None);
    assert_eq!(frame_value(num(1.5), MetricKind::Ssim), Some(num(1.0)));
    assert_eq!(frame_value(num(f64::NAN), MetricKind::Ssim), None);
    assert_eq!(frame_value(num(-3.0), MetricKind::Psnr), Some(num(0.0)));
}

#[test]
fn planes_are_read() {
    let line = "n:1 mse_avg:0.5 psnr_avg:43.9 psnr_y:inf psnr_u:44.0 psnr_v:45.0";
    let planes: Vec<Option<Num>> = ["psnr_avg", "psnr_y", "psnr_u", "psnr_v"]
        .iter()
        .map(|k| {
            let readings: Vec<Option<Num>> = stat_texts(line, k).iter().map(|s| read(s)).collect();
            stat_num(&readings)
        })
        .collect();
    assert_eq!(vals(&parse_db_planes(&planes).unwrap()), vec![43.9, 100.0, 44.0, 45.0]);
    assert!(parse_db_planes(&vec![Some(num(1.0)), None, None, None]).is_none());
    let ssim = vec![Some(num(0.5)), Some(num(2.0)), Some(num(-1.0)), Some(num(0.25))];
    assert_eq!(vals(&parse_ssim_planes(&ssim).unwrap()), vec![0.5, 1.0, 0.0, 0.25]);
    assert_eq!(stat_num(&vec![None, Some(num(f64::NAN)), Some(num(3.0))]), Some(num(3.0)));
    assert_eq!(sanitize_db(num(f64::NAN)), num(0.0));
    assert_eq!(sanitize_db(num(f64::NEG_INFINITY)), num(100.0));
    assert_eq!(sanitize_db(num(-4.0)), num(-4.0));
}

#[test]
fn the_greatest_frame_counts() {
    assert_eq!(max_frame_in("frame=  12 fps=1\rframe= 40 q\rframe=9"), Some(40));
    assert_eq!(max_frame_in("nothing"), None);
    assert_eq!(parse_progress("n:12 x"), Some(12));
    assert_eq!(parse_progress("in:12"), None);
}

#[test]
fn summaries_are_scanned_from_the_end() {
    let t = "[x] SSIM Y:0.9 All:0.91 (10)\nn:5 SSIM All:0.1\n[x] SSIM All:0.95 (13)\n";
    assert_eq!(parse_summary(t, MetricKind::Ssim), vec!["0.95", "0.91"]);
    assert_eq!(parse_summary(t, MetricKind::Vmaf), Vec::<String>::new());
}

#[test]
fn xpsnr_planes_are_read() {
    let line = "n:    1  XPSNR y: 42.1  XPSNR u: 45.0  XPSNR v: inf";
    assert_eq!(parse_xpsnr_planes(line), Some(strings(&["42.1", "45.0", "inf"])));
    assert_eq!(parse_xpsnr_planes("XPSNR y: 1 XPSNR u: 2 XPSNR v: 3"), None);
    let err = "XPSNR y: 1.0 u: 2.0 v: 3.0\nn: XPSNR y: 9 u: 9 v: 9\nXPSNR average, 8 frames  y: 43.1\n\
               x XPSNR  y: 43.1  u: 44.0  v: nan\n";
    assert_eq!(
        parse_xpsnr_summary(err),
        vec![strings(&["43.1", "44.0", "nan"]), strings(&["1.0", "2.0", "3.0"])]
    );
}

#[test]
fn plane_weights_follow_the_format() {
    let w = |f: &str, a, b| xpsnr_weights(&Some(f.to_owned()), a, b);
    assert_eq!(w("YUV420P", Some(5), Some(3)), Weights { y: 15, u: 6, v: 6 });
    assert_eq!(w("yuv422p10le", Some(5), Some(3)), Weights { y: 15, u: 9, v: 9 });
    assert_eq!(w("yuv444p", Some(5), Some(3)), Weights { y: 1, u: 1, v: 1 });
    assert_eq!(w("nv12", None, Some(3)), Weights { y: 4, u: 1, v: 1 });
    assert_eq!(w("yuv422p", None, None), Weights { y: 2, u: 1, v: 1 });
    assert_eq!(xpsnr_weights(&None, Some(5), Some(3)), Weights { y: 1, u: 1, v: 1 });
}

#[test]
fn error_streams_are_shortened() {
    assert_eq!(stderr_tail("a\n\n b \nc\n", 2), "b\nc");
    assert_eq!(stderr_tail("a\n", 30), "a");
    assert_eq!(last_err_line("a\n b \n\n"), Some("b".to_owned()));
    assert_eq!(last_err_line("\n"), None);
    assert!(is_fatal_line("Option 'x' NOT FOUND"));
    assert!(!is_fatal_line("all is well"));
}

// ---- Runs ----

#[test]
fn segments_end_at_either_line_end() {
    let mut s = Segments::new();
    let mut all: Vec<Vec<u8>> = Vec::new();
    for piece in ["fra", "me=1\rframe=2\n", "\r\nend"] {
        all.extend(s.feed(&piece.as_bytes().to_vec()));
    }
    all.extend(s.finish());
    let texts: Vec<String> =
        all.iter().map(|b| String::from_utf8_lossy(b).into_owned()).filter(|t| !t.is_empty()).collect();
    assert_eq!(texts, vec!["frame=1", "frame=2", "end"]);
}

#[test]
fn progress_only_rises() {
    let mut h = HighMark::new();
    assert!(h.raise(3));
    assert!(!h.raise(3));
    assert!(!h.raise(2));
    assert!(h.raise(4));
}

#[test]
fn curves_are_sent_in_batches() {
    let mut live = Live::new();
    for i in 0..63 {
        assert!(live.push(num(i as f64), false).is_none());
    }
    let batch = live.push(num(63.0), false).unwrap();
    assert_eq!(batch.len(), 64);
    assert!(live.pending.is_empty());
    let mut s = Series::new();
    let late = s.push(frame(64.0, &[1.0]), true).unwrap();
    assert_eq!(late, vec![num(64.0)]);
    assert!(s.push(frame(65.0, &[2.0]), false).is_none());
    assert_eq!(s.frames.len(), 2);
    assert_eq!(s.live.pending, vec![num(65.0)]);
}

fn frame(value: f64, row: &[f64]) -> Frame {
    Frame { value: num(value), row: Some(row.iter().map(|v| num(*v)).collect()) }
}

#[test]
fn a_frame_has_a_value() {
    let f = frame_from(Some(num(40.0)), Some(vec![num(41.0)])).unwrap();
    assert_eq!((f.value, f.row), (num(40.0), Some(vec![num(41.0)])));
    let bare = frame_from(Some(num(40.0)), None).unwrap();
    assert_eq!((bare.value, bare.row), (num(40.0), None));
    assert!(frame_from(None, Some(vec![num(41.0)])).is_none());
}

#[test]
fn values_are_kept_without_rows() {
    let mut s = Series::new();
    s.push(frame(40.0, &[40.0, 41.0, 42.0, 43.0]), false);
    s.push(Frame { value: num(50.0), row: None }, false);
    let out = metric_outcome(MetricKind::Psnr, false, s, "", None, num(1.0));
    assert_eq!(out.error, None);
    assert_eq!(out.values, vec![num(40.0), num(50.0)]);
    assert!(matches!(out.detail, FrameDetail::Absent));
}

#[test]
fn a_run_fails_with_its_reason() {
    let f = fail("boom", num(2.0));
    assert_eq!(f.error, Some("boom".to_owned()));
    assert!(f.values.is_empty() && f.avg.is_none());
    let aborted = metric_outcome(MetricKind::Psnr, true, Series::new(), "", None, num(1.0));
    assert_eq!(aborted.error, Some("aborted".to_owned()));
    let empty = metric_outcome(MetricKind::Psnr, false, Series::new(), "Oops: bad file\n", None, num(1.0));
    assert!(empty.error.unwrap().contains("Oops: bad file"));
    let mut s = Series::new();
    s.push(frame(40.0, &[40.0, 41.0, 42.0, 43.0]), false);
    s.push(frame(50.0, &[50.0, 51.0, 52.0, 53.0]), false);
    let good = metric_outcome(MetricKind::Psnr, false, s, "", Some(num(40.0)), num(1.0));
    assert_eq!(good.error, None);
    assert_eq!(good.avg, Some(num(40.0)));
    assert_eq!(good.values, vec![num(40.0), num(50.0)]);
    let FrameDetail::Psnr(rows) = good.detail else {
        panic!("no rows");
    };
    assert_eq!(rows.len(), 2);
    assert_eq!((rows[0][1], rows[1][1]), (num(41.0), num(51.0)));
}

// ---- VMAF ----

fn cfg() -> VmafCfg {
    VmafCfg {
        model: "vmaf_v0.6.1.json".to_owned(),
        phone: false,
        scale: false,
        pooling: Pooling::HarmonicMean,
        subsample: 0,
        n_threads: 8,
    }
}

#[test]
fn models_are_listed_in_order() {
    assert_eq!(list_models(&strings(&["b.json", "x.txt", "a.json"])), strings(&["a.json", "b.json"]));
    assert_eq!(list_models(&Vec::new()), strings(&["No models found"]));
}

#[test]
fn a_missing_model_falls_back() {
    assert!(valid_model_name("vmaf_v0.6.1.json"));
    assert!(!valid_model_name("../x"));
    assert!(!valid_model_name(""));
    let listed = strings(&["b.json"]);
    assert_eq!(
        model_candidates("x.json", &listed),
        strings(&["x.json", "vmaf_v0.6.1.json", "b.json"])
    );
    let r = resolve_model("x.json", &listed, &vec![false, false, true]);
    assert_eq!(r, ("path=vmaf-models/b.json".to_owned(), "b.json".to_owned()));
    let none = resolve_model("x.json", &listed, &vec![false, false, false]);
    assert_eq!(none, ("version=vmaf_v0.6.1".to_owned(), String::new()));
}

#[test]
fn models_tell_their_size_and_range() {
    assert_eq!(model_resolution("vmaf_4K_v0.6.1.json"), (3840, 2160));
    assert_eq!(model_resolution("vmaf_v0.6.1.json"), (1920, 1080));
    assert!(is_v1_model("VMAF_V1.0_x"));
    assert_eq!(model_score_max("v1.0_3D0H_2160"), num(110.0));
    assert_eq!(model_score_max("vmaf"), num(100.0));
    assert_eq!(leg_model_scale(Some(1920), Some(1080), 1920, 1080, (1, 1)), None);
    assert_eq!(leg_model_scale(Some(1920), Some(1188), 1920, 1080, (1, 1)), None);
    assert_eq!(leg_model_scale(Some(1920), Some(1189), 1920, 1080, (7, 8)), Some((7, 8)));
    assert_eq!(leg_model_scale(None, Some(1080), 1920, 1080, (7, 8)), Some((1920, 1080)));
}

fn filter(c: &VmafCfg, opt: &str, name: &str) -> Result<String, String> {
    let reference = media(1920, 1080);
    let dist = media(1280, 720);
    let t = trim(None, None);
    let formats = LegFormats { dist: Some("format=yuv420p".to_owned()), reference: None };
    let inputs = Inputs {
        reference: &reference,
        dist: &dist,
        trim: &t,
        scaler: ScaleMethod::Bicubic,
        fit_dist: (1920, 1080),
        fit_ref: (1920, 1080),
        formats: &formats,
    };
    build_filter(&inputs, c, opt, name, "log.json")
}

#[test]
fn vmaf_filters_are_built() {
    assert_eq!(
        filter(&cfg(), "path=vmaf-models/m.json", "m.json").unwrap(),
        "[0:v]settb=AVTB,setpts=PTS-STARTPTS,scale=1920:1080:flags=bicubic,format=yuv420p[main];\
         [1:v]settb=AVTB,setpts=PTS-STARTPTS[ref];[main][ref]libvmaf=eof_action=endall:\
         model=path=vmaf-models/m.json:pool=harmonic_mean:n_subsample=1:n_threads=8:\
         log_path=log.json:log_fmt=json"
    );
}

#[test]
fn phone_needs_a_model_that_has_it() {
    let mut c = cfg();
    c.phone = true;
    c.n_threads = 0;
    assert!(filter(&c, "path=x", "vmaf_v0.6.1.json")
        .unwrap()
        .contains("model=path=x\\\\:enable_transform=true:pool=harmonic_mean:n_subsample=1:log_path"));
    assert_eq!(
        filter(&c, "path=x", "VMAF_v1.0.json").unwrap_err(),
        "Model 'VMAF_v1.0.json' has no Phone transform (v1 uses the separate 5d0h phone file)"
    );
    assert_eq!(
        filter(&c, "path=x", "vmaf_NEG.json").unwrap_err(),
        "Model 'vmaf_NEG.json' has no Phone transform (use v0.6.1)"
    );
}

fn parse_log(text: &str) -> Option<VmafLog> {
    let t = read_vmaf_log(text)?;
    let frames: Vec<FrameNums> = t
        .frames
        .into_iter()
        .map(|f| FrameNums {
            names: f.names,
            nums: f.texts.iter().map(|o| o.as_ref().and_then(|s| read(s))).collect(),
        })
        .collect();
    let one = |o: Option<String>| o.as_ref().and_then(|s| read(s));
    Some(parse_vmaf_log(&frames, one(t.mean), one(t.harmonic_mean), num(100.0)))
}

#[test]
fn vmaf_logs_are_read() {
    let log = parse_log(
        "{\"frames\": [\
           {\"metrics\": {\"vmaf\": 95.5, \"motion\": 1.007}},\
           {\"metrics\": {\"vmaf\": \"inf\", \"motion\": \"nan\"}},\
           {\"metrics\": {\"vmaf\": 50}},\
           {\"nothing\": 1},\
           {\"metrics\": {\"vmaf\": -3, \"motion\": 2}}],\
         \"pooled_metrics\": {\"vmaf\": {\"mean\": 120, \"harmonic_mean\": \" 88.5 \"}}}",
    )
    .unwrap();
    assert_eq!(log.cols, strings(&["motion", "vmaf"]));
    assert_eq!(vals(&log.values), vec![95.5, 100.0, 0.0]);
    let rows: Vec<Vec<f64>> = log.rows.iter().map(|r| vals(r)).collect();
    assert_eq!(rows, vec![vec![1.007, 95.5], vec![0.0, 100.0], vec![2.0, -3.0]]);
    assert_eq!(log.mean, Some(num(100.0)));
    assert_eq!(log.harmonic_mean, Some(num(88.5)));
    assert!(parse_log("not json").is_none());
    let empty = parse_log("{}").unwrap();
    assert!(empty.values.is_empty() && empty.mean.is_none());
}

#[test]
fn vmaf_runs_end_with_the_pooled_score() {
    let log = parse_log(
        "{\"frames\": [{\"metrics\": {\"vmaf\": 90}}], \
          \"pooled_metrics\": {\"vmaf\": {\"mean\": 91, \"harmonic_mean\": 89}}}",
    );
    let good = vmaf_outcome(log, Pooling::HarmonicMean, "", num(1.0));
    assert_eq!(good.avg, Some(num(89.0)));
    assert_eq!(good.error, None);
    let bad = vmaf_outcome(None, Pooling::Mean, "Could not load model\n", num(1.0));
    assert!(bad.error.is_some());
    assert_eq!(vmaf_failure(true, None, true, "", num(1.0)).unwrap().error, Some("aborted".to_owned()));
    assert!(vmaf_failure(false, Some(0), false, "", num(1.0)).is_none());
    assert!(vmaf_failure(false, Some(1), true, "Error: x\n", num(1.0)).unwrap().error.is_some());
}

// ---- Worst frames ----

#[test]
fn the_worst_frames_come_first() {
    let v = vec![num(3.0), num(1.0), num(2.0), num(1.0)];
    assert_eq!(worst_n(&v, 3, false), vec![(1, num(1.0)), (3, num(1.0)), (2, num(2.0))]);
    assert_eq!(worst_n(&v, 1, true), vec![(0, num(3.0))]);
    assert_eq!(worst_n(&v, 0, false), vec![]);
    assert_eq!(worst_n(&Vec::new(), 4, false), vec![]);
    assert_eq!(worst_n(&v, 9, false).len(), 4);
    assert_eq!(count_labels_of(), strings(&["1", "2", "3", "4", "5", "6", "7", "8", "9", "10"]));
}

#[test]
fn vmaf_frames_are_strided() {
    let mut c = cfg();
    c.subsample = 4;
    assert_eq!(stride_for(MetricKind::Vmaf, &Some(c)), 4);
    assert_eq!(stride_for(MetricKind::Vmaf, &None), 1);
    let mut d = cfg();
    d.subsample = 4;
    assert_eq!(stride_for(MetricKind::Psnr, &Some(d)), 1);
    assert_eq!(frame_of(3, 4), 12);
}

#[test]
fn pictures_are_named_after_their_frames() {
    assert_eq!(tmp_dest_for("/t", "/v/a.mkv", "PSNR", 42), "/t/a.mkv.PSNR.bf000042.png");
    assert_eq!(tmp_dest_ref_for("/t", "/v/a.mkv", "PSNR", 42), "/t/a.mkv.PSNR.bf000042-ref.png");
    assert_eq!(export_dest_for("/out", "/v/a.mkv", "SSIM", 7, false), "/out/a.mkv.SSIM.bf000007.png");
    let a = ffmpeg_args("in.mkv", "o.png", "1.500000", "25");
    assert_eq!(a[4..11], ["-accurate_seek", "-r", "25", "-i", "in.mkv", "-ss", "1.500000"]);
    assert_eq!(a.last().unwrap(), "o.png");
}

// ---- CSV ----

#[test]
fn frame_files_stand_beside_their_media() {
    assert_eq!(csv_path_for(" ", "/v/a.mkv", MetricKind::Psnr), "/v/a.mkv.PSNR.csv");
    assert_eq!(csv_path_for("/o", "/v/a.mkv", MetricKind::But), "/o/a.mkv.BUTTER.csv");
    assert_eq!(csv_path_for("", "a.mkv", MetricKind::Ssim), "a.mkv.SSIM.csv");
    assert_eq!(fmt_num("1.25"), "1,25");
    assert!(!CsvCfg::default().enabled);
}

#[test]
fn frame_files_are_rendered() {
    let detail = FrameDetail::Ssim(vec![vec![num(1.0)], vec![num(2.0)]]);
    let (head, rows, has_n) = render(MetricKind::Ssim, &detail).unwrap();
    assert_eq!(head, "frame\tn\tY\tU\tV\tAll");
    assert_eq!(rows.len(), 2);
    assert!(has_n);
    assert_eq!(
        csv_text(&head, &vec![strings(&["0,5", "1"]), strings(&["2", "3"])], has_n),
        "frame\tn\tY\tU\tV\tAll\r\n0\t1\t0,5\t1\r\n1\t2\t2\t3\r\n"
    );
    let vmaf = FrameDetail::Vmaf { cols: strings(&["motion", "vmaf"]), rows: Vec::new() };
    let (head, _, has_n) = render(MetricKind::Vmaf, &vmaf).unwrap();
    assert_eq!(head, "frame\tmotion\tvmaf");
    assert!(!has_n);
    assert_eq!(csv_text("frame\tvmaf", &vec![strings(&["9"])], false), "frame\tvmaf\r\n0\t9\r\n");
    assert_eq!(
        render(MetricKind::Psnr, &FrameDetail::Absent).unwrap_err(),
        "no frame data captured"
    );
    assert!(render(MetricKind::Psnr, &vmaf).is_err());
}

fn empty_block() -> Block {
    Block { avg: None, stats: None, finished: None, options: String::new() }
}

#[test]
fn results_rows_fit_their_header() {
    let mut blocks: Vec<Block> = (0..7).map(|_| empty_block()).collect();
    blocks[0].avg = Some("41.5".to_owned());
    blocks[0].finished = Some("now".to_owned());
    blocks[0].stats = Some((1..10).map(|i| format!("{i}")).collect());
    blocks[2].options = "Model=m".to_owned();
    let data = ResultsRow {
        blocks,
        frames: "10".to_owned(),
        frame: "2x2".to_owned(),
        bitrate: "5".to_owned(),
        path: "/v/a.mkv".to_owned(),
    };
    let r = row("t", &data, "1.0", "7.1");
    let cols: Vec<&str> = r.split('\t').collect();
    let heads = header();
    let heads: Vec<&str> = heads.split('\t').collect();
    assert_eq!(cols.len(), heads.len());
    let at = |name: &str| cols[heads.iter().position(|h| *h == name).unwrap()];
    assert_eq!(at("DateTime"), "t");
    assert_eq!(at("PSNR-DateTime"), "now");
    assert_eq!(at("PSNR-Value"), "41.5");
    assert_eq!(at("PSNR-MeanA"), "1");
    assert_eq!(at("PSNR-Percentile25"), "9");
    assert_eq!(at("SSIM-Value"), "");
    assert_eq!(at("VMAF-Options"), "Model=m");
    assert_eq!(at("FileSpec"), "/v/a.mkv");
    assert_eq!(at("FFMpeg"), "7.1");
}

#[test]
fn options_are_told_where_they_are_set() {
    let o = |s: Option<f64>, c: Option<f64>, v| options_for(s.map(num), c.map(num), "2", "3.5", v);
    assert_eq!(o(None, Some(0.0), None), "");
    assert_eq!(
        o(Some(2.0), Some(3.5), Some(("m", Pooling::Mean))),
        "Skip=2, Duration=3.5, Model=m, Pool=mean"
    );
}

#[test]
fn results_are_appended_below_one_header() {
    let rows = strings(&["a", "b"]);
    assert_eq!(append_text(false, &rows), "a\r\nb\r\n");
    assert_eq!(append_text(true, &rows), format!("{}\r\na\r\nb\r\n", header()));
    assert_eq!(app_dir(&Some("/opt/x".to_owned()), &None, "/tmp"), "/opt/x");
    assert_eq!(app_dir(&None, &Some("/cwd".to_owned()), "/tmp"), "/cwd");
    assert_eq!(
        default_results_path(&None, &None, "/tmp"),
        "/tmp/RFMetrics.Results.csv"
    );
}

fn planes(line: &str, kind: MetricKind) -> Option<Vec<f64>> {
    let readings: Vec<Vec<Option<Num>>> = plane_texts(line, kind)
        .iter()
        .map(|texts| texts.iter().map(|t| read(t)).collect())
        .collect();
    plane_row_of(kind, &readings).map(|r| vals(&r))
}

#[test]
fn a_row_needs_all_its_planes() {
    let psnr = "n:4 psnr_v:45.0 psnr_avg:43.9 psnr_y:nan psnr_y:42.0 psnr_u:inf";
    assert_eq!(planes(psnr, MetricKind::Psnr), Some(vec![43.9, 42.0, 100.0, 45.0]));
    assert_eq!(planes(psnr, MetricKind::Ssim), None);
    assert_eq!(planes(psnr, MetricKind::Xpsnr), None);
    assert_eq!(planes("psnr_avg:1 psnr_y:1 psnr_u:1 psnr_v:1", MetricKind::Psnr), None);
    let ssim = "n:1 Y:0.98 U:1.5 V:0.97 All:0.5) (18.3)";
    assert_eq!(planes(ssim, MetricKind::Ssim), Some(vec![0.98, 1.0, 0.97, 0.5]));
}
