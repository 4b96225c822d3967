use rfmetrics::metrics::ffmpeg::{MetricKind, Trim};
use rfmetrics::metrics::output::{frame_value, summary_value};
use rfmetrics::metrics::psnr::{
    build_args, filtergraph, parse_frame_line, parse_progress, parse_summary,
};
use rfmetrics::num::Num;
use rfmetrics::probe::{Figure, MediaInfo};

fn num(v: f64) -> Num {
    Num { bits: v.to_bits() }
}

fn read(s: &str) -> Option<Num> {
    s.parse::<f64>().ok().map(num)
}

fn ref_info() -> MediaInfo {
    MediaInfo {
        width: Some(1920),
        height: Some(1080),
        fps: Some(Figure { value: num(25.0), text: "25".to_owned() }),
        pix_fmt: Some("yuv420p".to_owned()),
        ..Default::default()
    }
}

fn trim(skip: Option<f64>, clip: Option<f64>) -> Trim {
    let start = skip.unwrap_or(0.0);
    Trim {
        skip: skip.map(num),
        clip_dur: clip.map(num),
        start: format!("{start}"),
        end: format!("{}", start + clip.unwrap_or(0.0)),
    }
}

fn frame(line: &str) -> Option<f64> {
    let v = read(&parse_frame_line(line)?)?;
    frame_value(v, MetricKind::Psnr).map(|n| f64::from_bits(n.bits))
}

fn summary(text: &str) -> Option<f64> {
    let readings: Vec<Option<Num>> = parse_summary(text).iter().map(|s| read(s)).collect();
    summary_value(&readings).map(|n| f64::from_bits(n.bits))
}

#[test]
fn frame_lines() {
    assert_eq!(frame("n:1 mse_avg:12.3 psnr_avg:34.1234 mse_y:1.0"), Some(34.1234));
    assert_eq!(frame("frame= 12 fps=25"), None);
    assert_eq!(frame("n:2 no avg here"), None);
    assert_eq!(frame("n:3 psnr_avg:inf"), Some(100.0));
    assert_eq!(frame("n:3 psnr_avg:-inf"), Some(0.0));
    assert_eq!(frame("n:3 psnr_avg:nan"), None);
    assert_eq!(frame("n:3 psnr_avg:garbage"), None);
}

#[test]
fn summary_scans_bottom_up() {
    let err = "[Parsed_psnr_0] PSNR y:1 u:2 v:3 average:30.0 min:1 max:2\n\
               [Parsed_psnr_0] PSNR y:1 u:2 v:3 average:33.98 min:1 max:2\n";
    assert_eq!(summary(err), Some(33.98));
    assert_eq!(summary("nothing here"), None);
}

#[test]
fn graph_scales_dist_to_ref() {
    let mut dist = ref_info();
    dist.width = Some(1280);
    dist.height = Some(720);
    dist.pix_fmt = Some("yuv444p".to_owned());
    let g = filtergraph(&ref_info(), &dist, &trim(None, None));
    assert_eq!(
        g,
        "[0:v]settb=AVTB,setpts=PTS-STARTPTS,scale=1920:1080,format=yuv420p[main];\
         [1:v]settb=AVTB,setpts=PTS-STARTPTS[ref];\
         [main][ref]psnr=eof_action=endall:stats_file=-"
    );
}

#[test]
fn graph_matching_streams_have_no_scale() {
    let g = filtergraph(&ref_info(), &ref_info(), &trim(Some(5.0), Some(10.0)));
    assert!(g.contains("[0:v]trim=start=5:end=15,"));
    assert!(g.contains("[1:v]trim=start=5:end=15,"));
    assert!(!g.contains("scale="));
    assert!(!g.contains("format="));
}

#[test]
fn args_order_is_dist_then_ref() {
    let a = build_args("ref.mp4", "dist.mp4", &ref_info(), &ref_info(), &trim(None, None));
    let i1 = a.iter().position(|x| x == "dist.mp4").unwrap();
    let i2 = a.iter().position(|x| x == "ref.mp4").unwrap();
    assert!(i1 < i2);
    assert!(a.contains(&"-r".to_owned()) && a.contains(&"25".to_owned()));
    assert_eq!(a.last().unwrap(), "-");
}

#[test]
fn progress_counts_statistics_lines() {
    assert_eq!(parse_progress("n:17 mse_avg:1.0"), Some(17));
    assert_eq!(parse_progress("nothing"), None);
}
