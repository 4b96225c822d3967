use rfmetrics::app::config::{trim_opt, Config, Menus, MetricToggles, TrimBox};
use rfmetrics::app::model::{find_row, QueueModel};
use rfmetrics::app::paths::{display_names, fold_key, lexical_normalize, names_for, norm_key};
use rfmetrics::app::persist::{
    apply_state, is_state_dirty, poolings_of, subsamples_of, SaveState, SaveStep,
};
use rfmetrics::app::plots::{draw_budget, export_name, visible_series, PlotRuntime, PngSaveMsg};
use rfmetrics::app::probing::{
    take_binaries, take_probe, timeout_display, untick_unsupported_metrics, Binaries, ProbeMsg,
    RefProbe,
};
use rfmetrics::app::queue::{
    apply_alt_include, cmp_rows, cycle_sort, done_is_stale, initial_dir, refresh_ranks, route_drop,
    shift_include_range, sort_view, DropAction, QueueRow, SortColumn, SortDir,
};
use rfmetrics::app::table::{
    cell_label_of, copied_name, drop_toast, live_cell, sort_mark_for, timeout_toast,
};
use rfmetrics::app::run::RunRuntime;
use rfmetrics::app::toast::{cut_to_80, path_label_of, plural_of, ToastKind};
use rfmetrics::binaries::BinaryInfo;
use rfmetrics::metrics::cell::{
    rank, rank_low, sorted_values, stat_label, stats_text, CellStat, DoneStats, MetricCell, Moments,
    Stamp, StatRank,
};
use rfmetrics::metrics::ffmpeg::{MetricKind, ScaleMethod};
use rfmetrics::num::Num;
use rfmetrics::probe::{Figure, MediaInfo};
use rfmetrics::state::{AppState, FileEntry};

fn num(v: f64) -> Num {
    Num { bits: v.to_bits() }
}

fn text(s: &str) -> Option<String> {
    Some(s.to_owned())
}

fn strings(v: &[&str]) -> Vec<String> {
    v.iter().map(|s| s.to_string()).collect()
}

fn queue(paths: &[&str]) -> QueueModel {
    let mut q = QueueModel::default();
    q.add_queue_files(&strings(paths), &text("/w"), false, "/");
    q
}

fn stamp() -> Stamp {
    Stamp {
        skip: None,
        clip_dur: None,
        vmaf_cfg: None,
        scaler: ScaleMethod::Bicubic,
        fps_mode: "m".to_owned(),
        ref_pixfmt: "p".to_owned(),
    }
}

fn stats(values: &[f64], avg: f64) -> Option<DoneStats> {
    let v: Vec<Num> = values.iter().map(|x| num(*x)).collect();
    let m = Moments {
        mean: num(avg),
        harm: num(avg),
        stddev: num(0.5),
        p1_at: 0,
        p5_at: 0,
        p10_at: 0,
        p25_at: 0,
    };
    DoneStats::new(&v, num(avg), num(1.0), m)
}

fn finish(row: &mut QueueRow, kind: MetricKind, values: &[f64], avg: f64) {
    *row.cell_mut(kind) = MetricCell::Done {
        values: values.iter().map(|x| num(*x)).collect(),
        avg: num(avg),
        exec_s: num(1.0),
        stamp: stamp(),
    };
    let c = row.cached_mut(kind);
    c.stats = stats(values, avg);
    c.text = format!("{avg:.4}");
}

// ---- Paths ----

#[test]
fn paths_are_normalized_as_texts() {
    assert_eq!(lexical_normalize("/a/./b/../c"), "/a/c");
    assert_eq!(lexical_normalize("/a/b/../../c"), "/c");
    let once = lexical_normalize("/x/./y//z/..");
    assert_eq!(lexical_normalize(&once), once);
    assert_eq!(fold_key("/A/B", true), "\\a\\b");
    assert_eq!(fold_key("/A/B", false), "/A/B");
    assert_eq!(norm_key("b/../c.mkv", &text("/w"), false), "/w/c.mkv");
    assert_eq!(norm_key("/w/./c.mkv", &None, false), "/w/c.mkv");
}

#[test]
fn names_grow_until_they_differ() {
    assert_eq!(
        display_names(&strings(&["/a/x.mkv", "/b/x.mkv", "/b/y.mkv"]), "/"),
        strings(&["a/x.mkv", "b/x.mkv", "y.mkv"])
    );
    assert_eq!(
        display_names(&strings(&["x.mkv", "b/x.mkv"]), "/"),
        strings(&["x.mkv", "b/x.mkv"])
    );
    let parts = vec![strings(&["a", "b", "x"]), strings(&["c", "b", "x"]), strings(&["y"])];
    assert_eq!(names_for(&parts, "\\"), strings(&["a\\b\\x", "c\\b\\x", "y"]));
}

// ---- The queue ----

#[test]
fn files_are_queued_once() {
    let mut q = queue(&["/v/a.mkv", "/v/b.mkv", "/v/./a.mkv"]);
    assert_eq!(q.rows.len(), 2);
    assert_eq!((q.rows[0].color_idx, q.rows[1].color_idx), (0, 1));
    assert!(q.rows[0].included && !q.rows[0].selected);
    let jobs = q.add_queue_files(&strings(&["/v/b.mkv", "c.mkv"]), &text("/v"), false, "/");
    assert_eq!(q.rows.len(), 3);
    assert_eq!(jobs.len(), 1);
    assert_eq!((jobs[0].key.as_str(), jobs[0].path.as_str()), ("/v/c.mkv", "c.mkv"));
    assert_eq!(jobs[0].token, q.rows[2].probe_gen);
    assert_eq!(find_row(&q.rows, "/v/b.mkv"), Some(1));
    assert_eq!(find_row(&q.rows, "/v/z.mkv"), None);
}

#[test]
fn selected_rows_are_removed() {
    let mut q = queue(&["/a/x.mkv", "/b/x.mkv", "/c/z.mkv"]);
    q.rows[0].selected = true;
    assert_eq!(q.rows[1].display, "b/x.mkv");
    q.remove_selected("/");
    let names: Vec<&str> = q.rows.iter().map(|r| r.display.as_str()).collect();
    assert_eq!(names, vec!["x.mkv", "z.mkv"]);
    q.select_all();
    assert!(q.rows.iter().all(|r| r.selected));
    q.remove_selected("/");
    assert!(q.rows.is_empty());
}

#[test]
fn clicks_pick_rows() {
    let mut q = queue(&["/a", "/b", "/c", "/d"]);
    let view = vec![0, 1, 2, 3];
    q.click_row(1, false, false, &view);
    q.click_row(3, false, true, &view);
    let picked: Vec<bool> = q.rows.iter().map(|r| r.selected).collect();
    assert_eq!(picked, vec![false, true, true, true]);
    q.click_include(2, true, false, &view);
    let ticked: Vec<bool> = q.rows.iter().map(|r| r.included).collect();
    assert_eq!(ticked, vec![false, false, true, false]);
    q.click_include(2, true, false, &view);
    assert!(q.rows.iter().all(|r| r.included));
}

#[test]
fn alt_ticks_one_or_all() {
    let mut f = vec![true, false, true];
    apply_alt_include(&mut f, 1);
    assert_eq!(f, vec![false, true, false]);
    apply_alt_include(&mut f, 1);
    assert_eq!(f, vec![true, true, true]);
    assert_eq!(shift_include_range(5, 3, 1), Some((1, 3)));
    assert_eq!(shift_include_range(5, 9, 1), None);
}

#[test]
fn results_are_reset() {
    let mut q = queue(&["/a", "/b"]);
    finish(&mut q.rows[0], MetricKind::Psnr, &[40.0], 40.0);
    finish(&mut q.rows[0], MetricKind::Ssim, &[0.9], 0.9);
    q.reset_metric(MetricKind::Psnr);
    assert!(!q.rows[0].cell(MetricKind::Psnr).is_done());
    assert!(q.rows[0].cached(MetricKind::Psnr).stats.is_none());
    assert!(q.rows[0].cell(MetricKind::Ssim).is_done());
    let shown: Vec<Vec<String>> =
        (0..2).map(|i| (0..7).map(|k| format!("{i}/{k}")).collect()).collect();
    q.refreeze_cell_texts(&shown);
    assert_eq!(q.rows[0].cached(MetricKind::Ssim).text, "0/1");
    q.reset_all();
    assert!(!q.rows[0].cell(MetricKind::Ssim).is_done());
}

// ---- Sorting ----

#[test]
fn a_third_click_unsorts() {
    let col = SortColumn::Metric(MetricKind::But);
    let first = cycle_sort(None, col, CellStat::Avg);
    assert_eq!(first, Some((col, initial_dir(col, CellStat::Avg))));
    let second = cycle_sort(first, col, CellStat::Avg);
    assert_eq!(second.unwrap().1, first.unwrap().1.flipped());
    assert_eq!(cycle_sort(second, col, CellStat::Avg), None);
    let other = cycle_sort(second, SortColumn::Path, CellStat::Avg);
    assert_eq!(other, Some((SortColumn::Path, SortDir::Asc)));
    assert_eq!(sort_mark_for(first, col), Some(first.unwrap().1));
    assert_eq!(sort_mark_for(first, SortColumn::Path), None);
}

#[test]
fn rows_without_a_result_come_last() {
    let mut q = queue(&["/c", "/a", "/b"]);
    finish(&mut q.rows[0], MetricKind::Psnr, &[30.0], 30.0);
    finish(&mut q.rows[2], MetricKind::Psnr, &[40.0], 40.0);
    let by = |d| sort_view(&q.rows, Some((SortColumn::Metric(MetricKind::Psnr), d)), CellStat::Avg);
    assert_eq!(by(SortDir::Asc), vec![0, 2, 1]);
    assert_eq!(by(SortDir::Desc), vec![2, 0, 1]);
    assert_eq!(sort_view(&q.rows, Some((SortColumn::Path, SortDir::Asc)), CellStat::Avg), vec![1, 2, 0]);
    assert_eq!(sort_view(&q.rows, None, CellStat::Avg), vec![0, 1, 2]);
    let o = cmp_rows(SortColumn::Path, SortDir::Desc, &q.rows[0], &q.rows[1], CellStat::Avg);
    assert!(o.is_lt());
}

#[test]
fn the_best_and_the_worst_are_marked() {
    let mut q = queue(&["/a", "/b", "/c"]);
    finish(&mut q.rows[0], MetricKind::Psnr, &[30.0], 30.0);
    finish(&mut q.rows[1], MetricKind::Psnr, &[40.0], 40.0);
    finish(&mut q.rows[2], MetricKind::Psnr, &[35.0], 35.0);
    refresh_ranks(&mut q.rows, MetricKind::Psnr);
    assert_eq!(q.rows[0].cached(MetricKind::Psnr).ranks[0], StatRank::Worst);
    assert_eq!(q.rows[1].cached(MetricKind::Psnr).ranks[0], StatRank::Best);
    assert_eq!(q.rows[2].cached(MetricKind::Psnr).ranks[0], StatRank::Plain);
    let mut one = queue(&["/a"]);
    finish(&mut one.rows[0], MetricKind::Psnr, &[30.0], 30.0);
    refresh_ranks(&mut one.rows, MetricKind::Psnr);
    assert!(one.rows[0].cached(MetricKind::Psnr).ranks.iter().all(|r| *r == StatRank::Tie));
    assert_eq!(rank(num(5.0), num(1.0), num(5.0)), StatRank::Best);
    assert_eq!(rank_low(num(5.0), num(1.0), num(5.0)), StatRank::Worst);
    assert_eq!(rank(num(5.0), num(5.0), num(5.0)), StatRank::Tie);
}

// ---- Statistics ----

#[test]
fn statistics_are_gathered() {
    let s = stats(&[3.0, 1.0, 2.0], 2.0).unwrap();
    assert_eq!((s.min, s.max, s.frames), (num(1.0), num(3.0), 3));
    assert_eq!(s.p1, num(1.0));
    assert_eq!(s.comparable().len(), 10);
    assert_eq!(s.value(CellStat::Max), num(3.0));
    assert_eq!(CellStat::P25.index(), 9);
    assert!(stats(&[], 2.0).is_none());
    assert_eq!(sorted_values(&vec![num(2.0), num(-1.0), num(1.0)]), vec![num(-1.0), num(1.0), num(2.0)]);
    assert_eq!(stat_label(5), "StdDev (pop):");
}

#[test]
fn statistics_are_told_in_lines() {
    let printed: Vec<String> = (0..10).map(|i| format!("{i}")).collect();
    assert_eq!(stats_text(&printed, "1.00s", 0), "No data");
    assert_eq!(
        stats_text(&printed, "1.00s", 12),
        "Avg: 0\nExec time: 1.00s\nFrames count: 12\n\nFrames statistics\nMean: 1\nMean (harm): 2\n\
         Min: 3\nMax: 4\nStdDev (pop): 5\n\nPercentile 1: 6\nPercentile 5: 7\nPercentile 10: 8\n\
         Percentile 25: 9"
    );
}

#[test]
fn cells_show_their_state() {
    let mut q = queue(&["/v/a.mkv"]);
    let k = MetricKind::Psnr;
    assert_eq!(cell_label_of(&q.rows[0], k, CellStat::Avg, ""), "N/A");
    *q.rows[0].cell_mut(k) = MetricCell::Running { frame: 12, values: Vec::new() };
    assert_eq!(cell_label_of(&q.rows[0], k, CellStat::Avg, ""), "Frame: 12");
    let mut run = RunRuntime::default();
    run.live_kind = Some(k);
    run.live_key = text("/v/a.mkv");
    assert!(live_cell(&q.rows[0], k, &run));
    assert!(!live_cell(&q.rows[0], MetricKind::Ssim, &run));
    *q.rows[0].cell_mut(k) = MetricCell::Error { msg: "bad".to_owned() };
    assert!(!live_cell(&q.rows[0], k, &run));
    finish(&mut q.rows[0], k, &[40.0], 40.0);
    assert_eq!(cell_label_of(&q.rows[0], k, CellStat::Avg, "x"), "40.0000");
    assert_eq!(cell_label_of(&q.rows[0], k, CellStat::Min, "39"), "39");
    assert_eq!(copied_name(&q.rows[0]), "a.mkv");
}

#[test]
fn changed_options_make_a_result_stale() {
    let mut q = queue(&["/a"]);
    finish(&mut q.rows[0], MetricKind::Psnr, &[40.0], 40.0);
    assert!(!done_is_stale(MetricKind::Psnr, q.rows[0].cell(MetricKind::Psnr), &stamp()));
    let mut s = stamp();
    s.skip = Some(num(2.0));
    assert!(done_is_stale(MetricKind::Psnr, q.rows[0].cell(MetricKind::Psnr), &s));
    let mut t = stamp();
    t.scaler = ScaleMethod::Sinc;
    assert!(done_is_stale(MetricKind::Psnr, q.rows[0].cell(MetricKind::Psnr), &t));
    finish(&mut q.rows[0], MetricKind::Ssim2, &[40.0], 40.0);
    assert!(!done_is_stale(MetricKind::Ssim2, q.rows[0].cell(MetricKind::Ssim2), &t));
    assert!(!done_is_stale(MetricKind::Vmaf, q.rows[0].cell(MetricKind::Vmaf), &s));
}

// ---- Drops and notes ----

#[test]
fn drops_are_routed() {
    let d = || strings(&["/a", "/b"]);
    assert!(matches!(route_drop(false, false, false, Vec::new()), DropAction::Ignore));
    let blocked = route_drop(true, true, false, d());
    assert!(matches!(blocked, DropAction::Blocked));
    assert_eq!(drop_toast(&blocked).unwrap().text, "Stop the run before changing files");
    let set = route_drop(false, true, false, d());
    match &set {
        DropAction::SetRef { first, extra } => assert_eq!((first.as_str(), *extra), ("/a", 1)),
        _ => panic!("a reference"),
    }
    assert_eq!(
        drop_toast(&set).unwrap().text,
        "Reference takes one file — kept the first, ignored 1 more"
    );
    match route_drop(false, false, true, d()) {
        DropAction::Queue(v) => assert_eq!(v, d()),
        _ => panic!("the queue"),
    }
    assert_eq!(timeout_toast("a").text, "Probe timed out: a");
}

#[test]
fn notes_are_kept_short() {
    let long: String = std::iter::repeat('é').take(100).collect();
    let cut = cut_to_80(&long);
    assert!(cut.chars().count() <= 80 && cut.ends_with('…'));
    assert_eq!(cut_to_80("short"), "short");
    assert_eq!(plural_of(1), "");
    assert_eq!(plural_of(2), "s");
    assert_eq!(path_label_of("", "beside"), "beside");
}

// ---- Settings ----

fn menus() -> Menus {
    Menus {
        fps_modes: strings(&["auto", "ref"]),
        cell_stats: strings(&["Average", "Min"]),
        pixfmts: strings(&["Source", "yuv420p"]),
    }
}

fn program(metrics: Vec<MetricKind>, usable: bool) -> BinaryInfo {
    BinaryInfo {
        path: if usable { text("/bin/x") } else { None },
        origin: String::new(),
        short: String::new(),
        detail: String::new(),
        usable,
        supported_metrics: metrics,
        ffmpeg_version: None,
    }
}

fn binaries() -> Binaries {
    Binaries {
        ffmpeg: program(vec![MetricKind::Psnr, MetricKind::Vmaf], true),
        ffvship: program(Vec::new(), true),
        ffprobe: text("/bin/p"),
        probing: false,
    }
}

#[test]
fn times_are_read_in_two_forms() {
    assert!(matches!(trim_opt("  "), TrimBox::Unset));
    assert!(matches!(trim_opt("-5"), TrimBox::Invalid));
    assert!(matches!(trim_opt("1:2:3:4"), TrimBox::Invalid));
    assert!(matches!(trim_opt("1::3"), TrimBox::Invalid));
    assert!(matches!(trim_opt("x:3"), TrimBox::Invalid));
    match trim_opt(" 1 : 2 : 3.5 ") {
        TrimBox::Time(t) => assert_eq!((t.heads, t.seconds), (vec![1, 2], "3.5".to_owned())),
        _ => panic!("a time"),
    }
    match trim_opt("90") {
        TrimBox::Time(t) => assert_eq!((t.heads, t.seconds), (vec![], "90".to_owned())),
        _ => panic!("a time"),
    }
}

#[test]
fn settings_survive_a_restart() {
    let models = strings(&["vmaf_v0.6.1.json", "m.json"]);
    let mut c = Config::new(models.clone(), &menus());
    assert!(c.metrics.vmaf && !c.metrics.psnr);
    c.reference.path = "/r.mkv".to_owned();
    c.reference.skip = "5".to_owned();
    c.metrics.psnr = true;
    c.vmaf.model = "m.json".to_owned();
    c.vmaf.pooling = poolings_of()[1].clone();
    c.vmaf.subsample = subsamples_of()[2].clone();
    c.view.fps_mode = "ref".to_owned();
    c.view.cell_precision = 2;
    c.view.scale_method = ScaleMethod::Lanczos;
    c.export.csv_dir = "/out".to_owned();
    let mut q = queue(&["/a", "/b"]);
    q.rows[1].included = false;
    let saved = c.snapshot(&q);
    assert!(!is_state_dirty(&c, &q, &saved));
    c.view.cell_precision = 3;
    assert!(is_state_dirty(&c, &q, &saved));
    c.view.cell_precision = 2;
    let mut spelled = c.snapshot(&q);
    spelled.options.cell_precision = text("02");
    assert!(is_state_dirty(&c, &q, &spelled));
    let mut d = Config::new(strings(&["other.json", "m.json"]), &menus());
    let mut p = QueueModel::default();
    let loaded = Some(saved);
    let jobs = apply_state(
        &mut d,
        &mut p,
        &binaries(),
        &menus(),
        8,
        &loaded,
        &vec![true, true],
        &text("/w"),
        false,
        "/",
    );
    assert_eq!(jobs.len(), 2);
    assert_eq!((d.reference.path.as_str(), d.reference.skip.as_str()), ("/r.mkv", "5"));
    assert!(d.metrics.psnr);
    assert_eq!(d.vmaf.model, "m.json");
    assert_eq!(d.vmaf.pooling, poolings_of()[1]);
    assert_eq!(d.view.cell_precision, 2);
    assert_eq!(d.view.scale_method, ScaleMethod::Lanczos);
    assert_eq!(d.export.csv_dir, "/out");
    assert_eq!(p.rows.len(), 2);
    assert!(p.rows[0].included && !p.rows[1].included);
    assert!(!is_state_dirty(&d, &p, loaded.as_ref().unwrap()));
}

#[test]
fn files_that_meet_in_another_folder_are_one() {
    let c = Config::new(strings(&["m.json"]), &menus());
    let q = queue(&["x.mkv", "/b/x.mkv"]);
    assert_eq!(q.rows.len(), 2);
    let loaded = Some(c.snapshot(&q));
    let mut d = Config::new(strings(&["m.json"]), &menus());
    let mut p = QueueModel::default();
    apply_state(
        &mut d, &mut p, &binaries(), &menus(), 8, &loaded, &vec![true, true], &text("/b"), false, "/",
    );
    assert_eq!(p.rows.len(), 1);
}

#[test]
fn statistics_are_found_by_their_labels() {
    let all = CellStat::all();
    assert_eq!(all.len(), 10);
    for s in all {
        assert_eq!(CellStat::from_label(s.label()), s);
    }
    assert_eq!(CellStat::StdDev.label(), "StdDev (pop)");
    assert_eq!(CellStat::from_label("odd"), CellStat::Avg);
}

#[test]
fn unknown_settings_keep_the_live_ones() {
    let mut c = Config::new(strings(&["m.json"]), &menus());
    let mut s = AppState::default();
    s.options.fps_mode = text("odd");
    s.options.cell_precision = text("99");
    s.options.scaling = text("odd");
    s.vmaf.model = text("missing.json");
    s.files = Some(vec![FileEntry { path: "/gone".to_owned(), included: true }]);
    let mut q = QueueModel::default();
    let jobs = apply_state(
        &mut c, &mut q, &binaries(), &menus(), 8, &Some(s), &vec![false], &None, false, "/",
    );
    assert!(jobs.is_empty() && q.rows.is_empty());
    assert_eq!(c.view.fps_mode, "auto");
    assert_eq!(c.view.cell_precision, 4);
    assert_eq!(c.view.scale_method, ScaleMethod::Bicubic);
}

#[test]
fn the_state_is_saved_after_a_pause() {
    let mut s = SaveState { pending_since: None, fallback_toasted: false };
    assert_eq!(s.tick(false, num(1.0), false), SaveStep::Clean);
    assert_eq!(s.tick(true, num(2.0), false), SaveStep::Arm);
    assert_eq!(s.tick(true, num(2.5), false), SaveStep::Wait);
    assert_eq!(s.tick(true, num(9.0), true), SaveStep::Save);
    assert!(s.saved(&text("/p"), "/p", num(9.0)).is_none());
    let first = s.saved(&None, "/p", num(10.0)).unwrap();
    assert_eq!(first.kind, ToastKind::Warning);
    assert!(s.saved(&None, "/p", num(11.0)).is_none());
}

#[test]
fn metrics_that_cannot_run_are_unticked() {
    let mut m = MetricToggles {
        psnr: true,
        ssim: true,
        vmaf: true,
        xpsnr: true,
        ssim2: true,
        butteraugli: true,
        cvvdp: true,
    };
    untick_unsupported_metrics(&mut m, &binaries());
    assert!(m.psnr && m.vmaf && !m.ssim && !m.xpsnr && m.ssim2 && m.cvvdp);
    let again = m;
    untick_unsupported_metrics(&mut m, &binaries());
    assert_eq!(m, again);
    let mut b = binaries();
    b.ffvship = program(Vec::new(), false);
    untick_unsupported_metrics(&mut m, &b);
    assert!(!m.ssim2 && !m.butteraugli && m.psnr);
    assert!(m.is_ticked(MetricKind::Psnr) && !m.is_ticked(MetricKind::But));
}

// ---- Probing ----

#[test]
fn late_answers_are_dropped() {
    let mut q = queue(&["/a"]);
    let token = q.rows[0].probe_gen;
    let answer = |probe_gen: u64, m: &str| ProbeMsg::RowMedia {
        key: "/a".to_owned(),
        probe_gen,
        media: m.to_owned(),
        tip: "t".to_owned(),
        info: Some(MediaInfo::default()),
        timed_out: false,
    };
    let mut r = RefProbe::default();
    take_probe(&mut r, &mut q, answer(token, "new"));
    assert_eq!(q.rows[0].media, "new");
    assert!(q.rows[0].info.is_some());
    take_probe(&mut r, &mut q, answer(token + 1, "odd"));
    assert_eq!(q.rows[0].media, "new");
    assert_eq!(q.refresh_media_info().len(), 1);
    assert_eq!(q.rows[0].media, "Probing…");
    q.rows[0].info = None;
    let jobs = q.reprobe_unknown();
    assert_eq!(jobs.len(), 1);
    assert_ne!(jobs[0].token, token);
    take_probe(&mut r, &mut q, answer(token, "old"));
    assert_ne!(q.rows[0].media, "old");
    take_probe(&mut r, &mut q, answer(jobs[0].token, "new"));
    assert_eq!(q.rows[0].media, "new");
    assert!(q.reprobe_unknown().is_empty());
}

#[test]
fn the_reference_is_asked_once() {
    let mut r = RefProbe::default();
    assert!(r.refresh_ref_info("/r", true, true));
    assert!(!r.refresh_ref_info("/r", true, true));
    let g = r.generation;
    let mut q = QueueModel::default();
    let m = |generation| ProbeMsg::Reference {
        generation,
        text: "found".to_owned(),
        info: None,
        timed_out: true,
    };
    take_probe(&mut r, &mut q, m(g));
    assert_eq!(r.info, "found");
    assert_eq!(r.timeout_note, text("r"));
    r.rearm();
    take_probe(&mut r, &mut q, m(g));
    assert!(r.refresh_ref_info("/r", true, true));
    assert!(!r.refresh_ref_info("", false, true));
    assert!(r.refresh_thumbnail("/r", true, true));
    let t = r.thumb_generation;
    assert!(r.take_thumb(t));
    assert!(!r.take_thumb(t + 7));
    assert_eq!(timeout_display("/v/a.mkv"), "a.mkv");
    assert_eq!(timeout_display("a/.."), "a/..");
    assert_eq!(timeout_display(""), "(unknown file)");
}

#[test]
fn found_programs_start_probes() {
    let mut b = binaries();
    b.probing = true;
    b.ffprobe = None;
    let mut m = MetricToggles {
        psnr: true,
        ssim: true,
        vmaf: false,
        xpsnr: false,
        ssim2: false,
        butteraugli: false,
        cvvdp: false,
    };
    let mut r = RefProbe::default();
    let mut q = queue(&["/a"]);
    let found = program(vec![MetricKind::Ssim], true);
    let jobs = take_binaries(&mut b, &mut m, &mut r, &mut q, found, program(vec![], false), text("/p"));
    assert_eq!(jobs.len(), 1);
    assert!(!b.probing);
    assert!(!m.psnr && m.ssim);
    assert_eq!(b.ffprobe, text("/p"));
}

// ---- Plots ----

#[test]
fn included_rows_are_drawn() {
    let mut q = queue(&["/a", "/b", "/c"]);
    finish(&mut q.rows[0], MetricKind::Psnr, &[1.0, 2.0], 1.5);
    finish(&mut q.rows[1], MetricKind::Psnr, &[1.0, 2.0], 1.5);
    q.rows[1].included = false;
    assert_eq!(visible_series(&q.rows, MetricKind::Psnr), (vec![0], false));
    *q.rows[2].cell_mut(MetricKind::Psnr) = MetricCell::Running { frame: 1, values: vec![num(3.0)] };
    assert_eq!(visible_series(&q.rows, MetricKind::Psnr), (vec![0, 2], true));
    assert!(draw_budget(1000) >= 1000);
    assert!(export_name(MetricKind::Psnr).contains("PSNR"));
    let mut p = PlotRuntime::default();
    p.png_saving = true;
    let t = p.take_png(PngSaveMsg::SaveFailed { err: "disk".to_owned() });
    assert_eq!(t.kind, ToastKind::Error);
    assert!(!p.png_saving);
}

#[test]
fn media_rows_keep_their_figures() {
    let m = MediaInfo {
        fps: Some(Figure { value: num(25.0), text: "25".to_owned() }),
        ..Default::default()
    };
    let c = m.copy();
    assert_eq!(c.fps.unwrap().text, "25");
}
