use rfmetrics::app::badframes::{
    badframe_files_for, badframe_jobs_for, badframe_picks, can_export, count_for, export_pairs,
    frame_text, has_file, picks_for, ref_rate_for, refuse_export, split_export, thirty,
    tmp_pictures, toast_export, toast_extract, usable_rate, BadframeExportScope, BadframeMsg,
    BadframesRuntime, WorkTally,
};
use rfmetrics::app::config::{Config, Menus};
use rfmetrics::app::model::QueueModel;
use rfmetrics::app::plots::PlotRuntime;
use rfmetrics::app::probing::Binaries;
use rfmetrics::app::results::{frames_for, line_for, result_lines, results_toast, Printed};
use rfmetrics::app::run::{
    csv_toast, drain_metric_results, runner_for, start_run, take_metric, wants_csv, CsvTally,
    DoneMsg, MetricMsg, RunRuntime, Runner,
};
use rfmetrics::app::start::{
    run_stamp_of, skip_groups, stamp_for_kind, wanted_kinds_of, StartInputs, Work,
};
use rfmetrics::app::toast::{Toast, ToastKind};
use rfmetrics::binaries::BinaryInfo;
use rfmetrics::metrics::cell::{MetricCell, Moments, Stamp};
use rfmetrics::metrics::ffmpeg::MetricKind;
use rfmetrics::metrics::ffvship::FfvshipKind;
use rfmetrics::num::Num;
use rfmetrics::probe::{Figure, MediaInfo};

fn num(v: f64) -> Num {
    Num { bits: v.to_bits() }
}

fn text(s: &str) -> Option<String> {
    Some(s.to_owned())
}

fn strings(v: &[&str]) -> Vec<String> {
    v.iter().map(|s| s.to_string()).collect()
}

fn menus() -> Menus {
    Menus {
        fps_modes: strings(&["auto"]),
        cell_stats: strings(&["Average"]),
        pixfmts: strings(&["Source"]),
    }
}

fn config() -> Config {
    let mut c = Config::new(strings(&["vmaf_v0.6.1.json"]), &menus());
    c.metrics.vmaf = false;
    c.metrics.psnr = true;
    c.metrics.ssim2 = true;
    c.reference.path = "/r.mkv".to_owned();
    c
}

fn program(path: &str, metrics: Vec<MetricKind>, usable: bool) -> BinaryInfo {
    BinaryInfo {
        path: if usable { text(path) } else { None },
        origin: String::new(),
        short: String::new(),
        detail: String::new(),
        usable,
        supported_metrics: metrics,
        ffmpeg_version: None,
    }
}

fn binaries() -> Binaries {
    Binaries {
        ffmpeg: program("/bin/ffmpeg", vec![MetricKind::Psnr, MetricKind::Vmaf], true),
        ffvship: program("/bin/ffvship", Vec::new(), true),
        ffprobe: text("/bin/ffprobe"),
        probing: false,
    }
}

fn media() -> MediaInfo {
    MediaInfo {
        width: Some(64),
        height: Some(32),
        fps: Some(Figure { value: num(25.0), text: "25".to_owned() }),
        total_frames: Some(10),
        bitrate_kbps: Some(700),
        ..Default::default()
    }
}

fn queue(paths: &[&str]) -> QueueModel {
    let mut q = QueueModel::default();
    q.add_queue_files(&strings(paths), &text("/w"), false, "/");
    for r in q.rows.iter_mut() {
        r.info = Some(media());
    }
    q
}

fn inputs() -> StartInputs {
    StartInputs {
        ref_is_file: true,
        ref_known: true,
        skip: Some(None),
        clip: Some(None),
        threads: 4,
    }
}

fn stamp() -> Stamp {
    stamp_for_kind(MetricKind::Psnr, &run_stamp_of(&config(), None, None, 4))
}

fn done(generation: u64, kind: MetricKind, key: &str, values: &[f64], error: Option<&str>) -> MetricMsg {
    let avg = if values.is_empty() { None } else { Some(num(values[0])) };
    MetricMsg::Done {
        generation,
        done: DoneMsg {
            kind,
            key: key.to_owned(),
            values: values.iter().map(|v| num(*v)).collect(),
            avg,
            exec_s: num(1.5),
            error: error.map(|s| s.to_owned()),
            stamp: stamp(),
            moments: Moments {
                mean: num(1.0),
                harm: num(1.0),
                stddev: num(0.0),
                p1_at: 0,
                p5_at: 0,
                p10_at: 0,
                p25_at: 0,
            },
            shown: "shown".to_owned(),
            now: "now".to_owned(),
        },
    }
}

struct Session {
    run: RunRuntime,
    queue: QueueModel,
    plots: PlotRuntime,
}

fn session(paths: &[&str]) -> Session {
    Session { run: RunRuntime::default(), queue: queue(paths), plots: PlotRuntime::default() }
}

impl Session {
    fn start(&mut self, c: &Config, b: &Binaries, i: StartInputs) -> (usize, Option<Toast>) {
        let (jobs, t) = start_run(&mut self.run, &mut self.queue, &mut self.plots, c, b, i);
        (jobs.len(), t)
    }

    fn take(&mut self, m: &MetricMsg) -> bool {
        take_metric(&mut self.run, &mut self.queue, &mut self.plots, false, m)
    }
}

// ---- Starting ----

#[test]
fn ticked_metrics_run_in_order() {
    assert_eq!(
        wanted_kinds_of(&config().metrics, &binaries()),
        vec![MetricKind::Psnr, MetricKind::Ssim2]
    );
    let mut s = session(&["/a", "/b"]);
    let (jobs, t) = start_run(
        &mut s.run, &mut s.queue, &mut s.plots, &config(), &binaries(), inputs(),
    );
    assert!(t.is_none());
    let order: Vec<(MetricKind, &str, &str)> =
        jobs.iter().map(|j| (j.kind, j.key.as_str(), j.exe.as_str())).collect();
    assert_eq!(
        order,
        vec![
            (MetricKind::Psnr, "/a", "/bin/ffmpeg"),
            (MetricKind::Psnr, "/b", "/bin/ffmpeg"),
            (MetricKind::Ssim2, "/a", "/bin/ffvship"),
            (MetricKind::Ssim2, "/b", "/bin/ffvship"),
        ]
    );
    assert!(s.run.measuring);
    assert_eq!(s.run.pending, 4);
    assert!(s.queue.rows[0].cell(MetricKind::Psnr).is_running());
    assert!(!s.queue.rows[0].cell(MetricKind::Ssim).is_running());
}

#[test]
fn a_run_is_refused_in_words() {
    let said = |c: &Config, b: &Binaries, i: StartInputs| {
        let mut s = session(&["/a"]);
        let (jobs, t) = s.start(c, b, i);
        assert_eq!(jobs, 0);
        assert!(!s.run.measuring);
        t.unwrap().text
    };
    let mut none = config();
    none.metrics.psnr = false;
    none.metrics.ssim2 = false;
    assert_eq!(said(&none, &binaries(), inputs()), "Tick a metric in the table header to run it");
    let mut bare = config();
    bare.reference.path = String::new();
    let no_file = StartInputs { ref_is_file: false, ..inputs() };
    assert_eq!(said(&bare, &binaries(), no_file), "Set a reference file first");
    let bad = StartInputs { skip: None, ..inputs() };
    assert_eq!(said(&config(), &binaries(), bad), "Skip/Duration is not a valid time");
    let unknown = StartInputs { ref_known: false, ..inputs() };
    assert_eq!(
        said(&config(), &binaries(), unknown),
        "Reference is still probing — try again in a moment"
    );
    let mut b = binaries();
    b.probing = true;
    assert_eq!(said(&config(), &b, inputs()), "Binaries still probing — try again in a moment");
    let mut gone = binaries();
    gone.ffmpeg = program("", vec![MetricKind::Psnr], false);
    let mut one = config();
    one.metrics.ssim2 = false;
    let text = said(&one, &gone, inputs());
    assert!(text == "ffmpeg not found" || text.starts_with("Tick a metric"), "{text}");
}

#[test]
fn rows_that_are_not_ticked_do_not_run() {
    let mut s = session(&["/a"]);
    s.queue.rows[0].included = false;
    let (_, t) = s.start(&config(), &binaries(), inputs());
    assert_eq!(t.unwrap().text, "Nothing to run — tick the checkbox in the first column");
    let mut u = session(&["/a"]);
    u.queue.rows[0].info = None;
    let (_, t) = u.start(&config(), &binaries(), inputs());
    assert_eq!(t.unwrap().text, "Files are still probing — try again in a moment");
}

#[test]
fn current_results_are_skipped() {
    let mut c = config();
    c.metrics.ssim2 = false;
    let mut s = session(&["/a", "/b"]);
    s.start(&c, &binaries(), inputs());
    let g = s.run.generation;
    s.take(&done(g, MetricKind::Psnr, "/a", &[40.0], None));
    s.take(&MetricMsg::Finished { generation: g, aborted: true });
    let (jobs, t) = s.start(&c, &binaries(), inputs());
    assert_eq!(jobs, 1);
    assert_eq!(t.unwrap().text, "Skipped 1 with existing PSNR: a");
    let groups = skip_groups(&vec![
        Work { kind: MetricKind::Psnr, due: 0, skipped: strings(&["a"]) },
        Work { kind: MetricKind::Ssim, due: 0, skipped: strings(&["a"]) },
    ]);
    assert_eq!(groups.len(), 1);
    assert_eq!(groups[0].names, strings(&["PSNR", "SSIM"]));
}

#[test]
fn results_bear_only_what_matters_to_them() {
    let mut c = config();
    c.metrics.vmaf = true;
    let all = run_stamp_of(&c, Some(num(2.0)), None, 4);
    assert_eq!(all.skip, Some(num(2.0)));
    assert!(all.vmaf_cfg.is_some());
    assert!(stamp_for_kind(MetricKind::Psnr, &all).vmaf_cfg.is_none());
    assert!(stamp_for_kind(MetricKind::Vmaf, &all).vmaf_cfg.is_some());
}

// ---- Messages ----

#[test]
fn a_run_goes_to_its_end() {
    let mut c = config();
    c.metrics.ssim2 = false;
    let mut s = session(&["/a", "/b"]);
    s.start(&c, &binaries(), inputs());
    let g = s.run.generation;
    let k = MetricKind::Psnr;
    let progress = |frame| MetricMsg::Progress { generation: g, kind: k, key: "/a".to_owned(), frame };
    assert!(!s.take(&progress(5)));
    s.take(&progress(3));
    assert!(matches!(s.queue.rows[0].psnr, MetricCell::Running { frame: 5, .. }));
    assert_eq!((s.run.live_kind, s.run.live_key.clone()), (Some(k), text("/a")));
    s.take(&MetricMsg::Series {
        generation: g,
        kind: k,
        key: "/a".to_owned(),
        new_values: vec![num(1.0), num(2.0)],
    });
    assert!(matches!(s.queue.rows[0].psnr, MetricCell::Running { ref values, .. } if values.len() == 2));
    assert!(!s.queue.rows[0].psnr.has_values());
    assert!(s.take(&done(g, k, "/a", &[40.0, 41.0], None)));
    assert!(s.queue.rows[0].psnr.is_done() && s.queue.rows[0].psnr.has_values());
    assert_eq!(s.queue.rows[0].cached(k).text, "shown");
    assert_eq!(s.queue.rows[0].cached(k).finished, text("now"));
    assert_eq!(s.run.pending, 1);
    s.take(&done(g, k, "/b", &[], Some("boom")));
    assert!(matches!(s.queue.rows[1].psnr, MetricCell::Error { ref msg } if msg == "boom"));
    s.take(&MetricMsg::CsvReport { generation: g, ok: 1, errors: Vec::new() });
    s.take(&MetricMsg::Finished { generation: g, aborted: false });
    assert!(!s.run.measuring);
    assert_eq!(s.run.csv_report.as_ref().unwrap().0, 1);
}

#[test]
fn stopped_cells_go_idle() {
    let mut c = config();
    c.metrics.ssim2 = false;
    let mut s = session(&["/a", "/b"]);
    s.start(&c, &binaries(), inputs());
    let g = s.run.generation;
    s.take(&done(g, MetricKind::Psnr, "/a", &[], Some("aborted")));
    s.take(&MetricMsg::Finished { generation: g, aborted: true });
    assert!(matches!(s.queue.rows[0].psnr, MetricCell::Idle));
    assert!(matches!(s.queue.rows[1].psnr, MetricCell::Idle));
}

#[test]
fn messages_of_an_earlier_run_are_dropped() {
    let mut s = session(&["/a"]);
    let mut c = config();
    c.metrics.ssim2 = false;
    s.start(&c, &binaries(), inputs());
    let g = s.run.generation;
    let mut r = RunRuntime::default();
    std::mem::swap(&mut r, &mut s.run);
    r.reset_psnr(&mut s.queue);
    std::mem::swap(&mut r, &mut s.run);
    s.take(&done(g, MetricKind::Psnr, "/a", &[40.0], None));
    assert!(!s.queue.rows[0].psnr.is_done());
    assert!(!drain_metric_results(
        &mut s.run,
        &mut s.queue,
        &mut s.plots,
        false,
        &Vec::new()
    ));
}

#[test]
fn each_metric_has_its_runner() {
    assert_eq!(runner_for(MetricKind::Vmaf), Runner::Vmaf);
    assert_eq!(runner_for(MetricKind::But), Runner::Ffvship(FfvshipKind::Butteraugli));
    assert_eq!(runner_for(MetricKind::Ssim), Runner::Filter);
    assert!(wants_csv(true, &None, &vec![num(1.0)]));
    assert!(!wants_csv(false, &None, &vec![num(1.0)]));
    assert!(!wants_csv(true, &text("x"), &vec![num(1.0)]));
    assert!(!wants_csv(true, &None, &Vec::new()));
    assert_eq!(csv_toast(2, &Vec::new()).text, "Saved 2 CSV files");
    assert_eq!(csv_toast(0, &strings(&["disk full"])).text, "CSV export failed for 1 file: disk full");
}

// ---- Results ----

fn printed() -> Vec<Printed> {
    (0..7)
        .map(|i| Printed {
            avg: format!("{i}.5"),
            stats: (0..9).map(|k| format!("{i}{k}")).collect(),
            skip: "2".to_owned(),
            clip: "3".to_owned(),
        })
        .collect()
}

#[test]
fn results_are_told_row_by_row() {
    let mut s = session(&["/a", "/b"]);
    let mut c = config();
    c.metrics.ssim2 = false;
    s.start(&c, &binaries(), inputs());
    let g = s.run.generation;
    s.take(&done(g, MetricKind::Psnr, "/a", &[40.0, 41.0], None));
    assert_eq!(frames_for(&s.queue.rows[0]), "2");
    let line = line_for("t", &s.queue.rows[0], &printed(), "1.0", "7.1");
    let cols: Vec<&str> = line.split('\t').collect();
    assert_eq!(cols[..4], ["t", "now", "0.5", "00"]);
    assert_eq!(cols[cols.len() - 3..], ["/a", "1.0", "7.1"]);
    let lines = result_lines("t", &s.queue.rows, &vec![printed(), printed()], "1.0", "7.1");
    assert!(lines.contains(&line));
    assert_eq!(results_toast(2, "/p", &None).text, "Appended 2 rows to /p");
    assert_eq!(results_toast(2, "/p", &text("denied")).text, "Could not save results: denied");
    s.run.results_autosave_pending = true;
    assert_eq!(s.run.consume_autosave("", "/d.csv"), text("/d.csv"));
    assert_eq!(s.run.consume_autosave("/x.csv", "/d.csv"), None);
}

// ---- Worst frames ----

fn finished() -> QueueModel {
    let mut s = session(&["/v/a.mkv", "/v/b.mkv"]);
    let mut c = config();
    c.metrics.ssim2 = false;
    s.start(&c, &binaries(), inputs());
    let g = s.run.generation;
    s.take(&done(g, MetricKind::Psnr, "/v/a.mkv", &[40.0, 30.0, 35.0], None));
    s.take(&done(g, MetricKind::Psnr, "/v/b.mkv", &[20.0, 30.0, 10.0], None));
    s.queue
}

#[test]
fn the_worst_frames_are_picked() {
    let q = finished();
    let rate = Some(num(25.0));
    let p = picks_for(&q.rows[0], MetricKind::Psnr, rate, 2);
    let frames: Vec<(usize, f64)> = p.iter().map(|x| (x.frame, f64::from_bits(x.value.bits))).collect();
    assert_eq!(frames, vec![(1, 30.0), (2, 35.0)]);
    assert_eq!(badframe_picks(&q.rows, MetricKind::Psnr, "/v/b.mkv", rate, "1", true).len(), 1);
    assert_eq!(count_for("7"), Some(7));
    assert_eq!(count_for("x"), None);
    let files = badframe_files_for(&q.rows, MetricKind::Psnr);
    assert!(has_file(&files, "/v/a.mkv") && !has_file(&files, "/v/z.mkv"));
    assert!(badframe_files_for(&q.rows, MetricKind::Ssim).is_empty());
    assert_eq!(frame_text(MetricKind::Psnr, 12), "PSNR frame 12");
}

#[test]
fn rates_fall_back() {
    assert_eq!(usable_rate(&Some(media())), Some(num(25.0)));
    assert_eq!(usable_rate(&None), None);
    assert_eq!(ref_rate_for(None, &finished().rows), num(25.0));
    assert_eq!(ref_rate_for(Some(num(50.0)), &finished().rows), num(50.0));
    assert_eq!(ref_rate_for(None, &Vec::new()), thirty());
    assert_eq!(thirty(), num(30.0));
}

#[test]
fn frames_are_extracted_for_every_file() {
    let q = finished();
    let rate = Some(num(25.0));
    let jobs = badframe_jobs_for(&q.rows, MetricKind::Psnr, true, "/r.mkv", true, true, rate, "2");
    assert_eq!(jobs.len(), 4);
    assert_eq!((jobs[0].dist_path.as_str(), jobs[0].frame), ("/v/a.mkv", 1));
    assert!(badframe_jobs_for(&q.rows, MetricKind::Psnr, false, "/r", true, true, rate, "2").is_empty());
    let (dist, reference) = tmp_pictures("/t", &jobs[0]);
    assert_eq!(dist, "/t/a.mkv.PSNR.bf000001.png");
    assert_eq!(reference, "/t/a.mkv.PSNR.bf000001-ref.png");
    let (copies, left) = split_export(&jobs, &vec![true, false, false, true], "/t", "/o");
    assert_eq!((copies.len(), left.len()), (2, 2));
    assert_eq!(copies[0].dest_dist, "/o/a.mkv.PSNR.bf000001.png");
    let pairs = export_pairs(
        &q.rows,
        BadframeExportScope::Pair,
        MetricKind::Psnr,
        &text("/v/b.mkv"),
        1,
        rate,
        "2",
        true,
    );
    assert_eq!(pairs.len(), 1);
    assert_eq!((pairs[0].dist_path.as_str(), pairs[0].frame), ("/v/b.mkv", 0));
    let all = export_pairs(
        &q.rows, BadframeExportScope::All, MetricKind::Psnr, &None, 0, rate, "2", true,
    );
    assert_eq!(all.len(), 4);
}

#[test]
fn the_viewer_follows_its_worker() {
    let q = finished();
    let mut v = BadframesRuntime::default();
    assert!(v.can_begin(false));
    assert!(!v.can_begin(true));
    assert!(v.begin_extract(0).is_some());
    assert!(v.begin_extract(2).is_none());
    assert!(v.busy && !v.can_begin(false));
    assert!(v.take_badframe(&q.rows, BadframeMsg::Progress { done: 1, total: 4 }).is_none());
    assert_eq!(v.progress_text(), "Extracting 1/4");
    let end = v.take_badframe(&q.rows, BadframeMsg::Finished { ok: 4, errors: Vec::new() }).unwrap();
    assert_eq!(end.toast.text, "Extracted 4 bad-frame PNGs");
    assert!(!v.busy);
    v.pick_tab(MetricKind::Psnr);
    v.settle_file(&badframe_files_for(&q.rows, MetricKind::Psnr));
    assert_eq!(v.file, text("/v/a.mkv"));
    v.pick_frame(1, 2);
    v.step_on(2);
    assert_eq!(v.frame_pos, 1);
    v.step_back(2);
    assert_eq!(v.frame_pos, 0);
    v.step_back(2);
    assert_eq!(v.frame_pos, 0);
    v.step_on(2);
    let rate = Some(num(25.0));
    assert_eq!(can_export(&q.rows, &v, false, rate, "2", true), (true, true, true));
    assert_eq!(can_export(&q.rows, &v, true, rate, "2", true), (false, false, false));
    v.begin_export(3, "/o");
    assert_eq!(v.progress_text(), "Exporting 0/6");
    assert!(!v.close_badframes());
}

#[test]
fn exports_are_refused_in_words() {
    assert_eq!(refuse_export(false, "/r", true, 3).unwrap().text, "Export needs ffmpeg");
    assert_eq!(refuse_export(true, "/r", false, 3).unwrap().text, "Export needs the reference file");
    assert_eq!(
        refuse_export(true, "/r", true, 0).unwrap().text,
        "Nothing to export: run a metric first"
    );
    assert!(refuse_export(true, "/r", true, 3).is_none());
    let t = toast_export(2, &strings(&["a", "b"]), "/o");
    assert_eq!((t.text.as_str(), t.kind), ("Export: 2 saved, 2 faileds (a) → /o", ToastKind::Error));
    assert_eq!(toast_export(2, &Vec::new(), "/o").text, "Exported 2 PNGs to /o");
    assert_eq!(toast_extract(1, &strings(&["x"])).text, "Bad frames: 1 saved, 1 failed (x)");
}

#[test]
fn every_picture_is_counted() {
    let mut t = WorkTally::new(4);
    let m = t.copied(true, MetricKind::Psnr, 3);
    assert!(matches!(m, BadframeMsg::Progress { done: 2, total: 4 }));
    t.extracted(true, MetricKind::Psnr, 5);
    let m = t.extracted(false, MetricKind::Psnr, 5);
    assert!(matches!(m, BadframeMsg::Progress { done: 4, total: 4 }));
    match t.finish() {
        BadframeMsg::Finished { ok, errors } => {
            assert_eq!(ok, 3);
            assert_eq!(errors, strings(&["PSNR frame 5"]));
        },
        _ => panic!("an end"),
    }
}

#[test]
fn the_worker_tells_its_end() {
    let mut t = CsvTally::new();
    t.note(None);
    t.note(text("disk full"));
    let m = t.end_messages(7, false, true);
    assert_eq!(m.len(), 2);
    assert!(matches!(m[0], MetricMsg::Finished { generation: 7, aborted: false }));
    match &m[1] {
        MetricMsg::CsvReport { generation, ok, errors } => {
            assert_eq!((*generation, *ok), (7, 1));
            assert_eq!(errors, &strings(&["disk full"]));
        },
        _ => panic!("a report"),
    }
    assert_eq!(CsvTally::new().end_messages(7, true, false).len(), 1);
}
