use rfmetrics::binaries::{
    exit_str, ffmpeg_info, ffmpeg_kinds, ffmpeg_supported_filters, ffmpeg_version_token,
    ffprobe_path, ffvship_info, find_ffmpeg, find_ffprobe, find_ffvship, first_line,
    parse_ffvship_version, parse_filters_list, short_ffmpeg_version, stderr_snippet,
    supported_line, BinaryInfo, Found, VersionOutput,
};
use rfmetrics::metrics::ffmpeg::MetricKind;
use rfmetrics::num::Num;
use rfmetrics::plot::{
    decimate_minmax, extent, follow_live_tab, plot_def, tab_title, union_bounds, FitBounds, PlotFit,
    PlotSize,
};
use rfmetrics::preview::{
    decode, fit, seek_candidates, take_picture, thumb_args, try_next, Picture, Tried,
};
use rfmetrics::probe::{
    cell_media_text, count_args, packet_count, parse_media, path_usable, pick_stream, probe_args,
    probe_table_text, rate_of, ratio_rate, reference_line, reference_media_text, results_media_text, short_fraction, table_media_text,
    table_media_tooltip, thumb_duration, unprobed_reference, with_counted, BitRate, Figure, Format,
    MediaInfo, Probed, RateText, Readings, Stream,
};
use rfmetrics::state::{
    candidate_paths, load, load_step, state_path, AppState, FileEntry, FileEntryRaw, LoadStep, Read,
};

fn num(v: f64) -> Num {
    Num { bits: v.to_bits() }
}

fn text(s: &str) -> Option<String> {
    Some(s.to_owned())
}

fn strings(v: &[&str]) -> Vec<String> {
    v.iter().map(|s| s.to_string()).collect()
}

fn figure(v: f64, s: &str) -> Option<Figure> {
    Some(Figure { value: num(v), text: s.to_owned() })
}

// ---- Programs ----

#[test]
fn programs_near_the_application_win() {
    let f = find_ffmpeg(&text("/a/ffmpeg.exe"), &None, &text("/usr/bin/ffmpeg")).unwrap();
    assert_eq!((f.path.as_str(), f.origin.as_str()), ("/a/ffmpeg.exe", "next to app"));
    let g = find_ffmpeg(&None, &text("/a/ffmpeg/ffmpeg.exe"), &None).unwrap();
    assert_eq!(g.origin, "in ffmpeg folder");
    assert!(find_ffmpeg(&None, &None, &None).is_none());
    let v = find_ffvship(&text("/a/FFVship/FFVship.exe"), &text("/a/FFVship.exe"), &None).unwrap();
    assert_eq!(v.origin, "in FFVship folder");
    let p = find_ffprobe(&None, &None, &text("/b/ffprobe.exe"), &text("/usr/bin/ffprobe"));
    assert_eq!(p.as_ref().unwrap().origin, "next to ffmpeg");
    assert_eq!(ffprobe_path(&p), text("/b/ffprobe.exe"));
    assert_eq!(ffprobe_path(&None), None);
}

#[test]
fn versions_are_shortened() {
    assert_eq!(
        short_ffmpeg_version("ffmpeg version 9.0.1-full_build-www.gyan.dev x"),
        "FFmpeg: 9.0.1-full"
    );
    assert_eq!(short_ffmpeg_version("FFmpeg Version N-126626-g70"), "FFmpeg: N-126626-g70");
    assert_eq!(short_ffmpeg_version("odd"), "odd");
    assert_eq!(ffmpeg_version_token("ffmpeg version 7.1.1 y"), text("7.1.1"));
    assert_eq!(ffmpeg_version_token("odd"), None);
}

#[test]
fn filters_tell_the_metrics() {
    let list = " ..C psnr  VV->V x\n T.. ssim VV->V y\n ... other V->V\n";
    assert_eq!(parse_filters_list(list), vec![MetricKind::Psnr, MetricKind::Ssim]);
    assert_eq!(
        ffmpeg_kinds(),
        vec![MetricKind::Psnr, MetricKind::Ssim, MetricKind::Vmaf, MetricKind::Xpsnr]
    );
    assert_eq!(ffmpeg_supported_filters(&None), ffmpeg_kinds());
    assert_eq!(supported_line(&Vec::new()), "Supported: none");
    assert_eq!(supported_line(&vec![MetricKind::Psnr, MetricKind::Vmaf]), "Supported: PSNR, VMAF");
}

fn said(stdout: &str, stderr: &str, code: Option<i32>) -> Option<VersionOutput> {
    Some(VersionOutput { stdout: stdout.to_owned(), stderr: stderr.to_owned(), code })
}

fn at(p: &str) -> Option<Found> {
    Some(Found { path: p.to_owned(), origin: "in PATH".to_owned() })
}

#[test]
fn ffmpeg_is_described() {
    let none = ffmpeg_info(&None, &None, &None);
    assert_eq!(none.detail, "Checked next to app and in PATH, none found");
    assert!(!none.usable);
    let dead = ffmpeg_info(&at("/f"), &None, &None);
    assert_eq!(dead.detail, "Found at /f (in PATH) but failed to run");
    let mute = ffmpeg_info(&at("/f"), &said("\n", "bad", Some(3)), &None);
    assert_eq!(
        mute.detail,
        "Found at /f (in PATH) but got no version output (exit 3)\nstderr: bad"
    );
    let good = ffmpeg_info(
        &at("/f"),
        &said("ffmpeg version 7.1 Copyright (c) 2000-2025 them\nbuilt", "", Some(0)),
        &said("a psnr\n", "", Some(0)),
    );
    assert!(good.usable);
    assert_eq!(good.short, "FFmpeg: 7.1");
    assert_eq!(good.detail, "ffmpeg version 7.1\n/f (in PATH)\nSupported: PSNR");
    assert_eq!(good.supported_metrics, vec![MetricKind::Psnr]);
    assert_eq!(good.ffmpeg_version, text("7.1"));
}

#[test]
fn ffvship_is_described() {
    assert_eq!(
        parse_ffvship_version("FFVship 4.1.0\nCUDA version\n", "libvship version\n"),
        text("4.1.0_cuda")
    );
    assert_eq!(parse_ffvship_version("ffvship 4.1.0\n", ""), text("4.1.0"));
    assert_eq!(parse_ffvship_version("HIP version", ""), None);
    let good = ffvship_info(&at("/v"), &said("FFVship 5.0\n", "", Some(0)));
    assert_eq!((good.short.as_str(), good.usable), ("FFVship: 5.0", true));
    let odd = ffvship_info(&at("/v"), &said("hello\n", "", None));
    assert_eq!(odd.short, "FFVship: found (version unknown)");
    assert!(odd.detail.contains("(exit unknown)") && odd.detail.ends_with("\noutput: hello"));
    assert!(!odd.usable);
    assert_eq!(ffvship_info(&None, &None).short, "FFVship: not found");
    assert!(!ffvship_info(&at("/v"), &None).usable);
}

#[test]
fn program_output_is_shortened() {
    assert_eq!(exit_str(Some(-1)), "-1");
    assert_eq!(exit_str(None), "unknown");
    assert_eq!(first_line("\n \n", " err \n"), "err");
    assert_eq!(first_line("", ""), "");
    assert_eq!(stderr_snippet("  "), "");
    let long: String = std::iter::repeat('x').take(301).collect();
    assert_eq!(stderr_snippet(&long), format!("\nstderr: {}…", &long[..300]));
    assert_eq!(BinaryInfo::probing("Checking").short, "Checking");
}

// ---- Media ----

fn stream() -> Stream {
    Stream {
        codec_type: text("video"),
        codec_name: text("hevc"),
        codec_tag_string: None,
        width: Some(1920),
        height: Some(1080),
        avg_frame_rate: text("25/1"),
        r_frame_rate: None,
        pix_fmt: text("yuv420p10le(tv, bt709)"),
        color_range: text(" JPEG "),
        bit_rate: None,
        duration: None,
        nb_frames: text("N/A"),
        field_order: text("tt"),
        encoder_tag: None,
    }
}

fn readings() -> Readings {
    Readings {
        avg_rate: figure(25.0, "25"),
        r_rate: None,
        stream_bits: None,
        format_bits: Some(BitRate { value: num(2_500_900.0), whole: 2_500_900 }),
        stream_length: None,
        format_length: figure(10.0, "00:00:10.00"),
    }
}

#[test]
fn media_is_parsed() {
    let fmt = Format { bit_rate: text("2500900"), duration: text("10.0") };
    let m = parse_media(&stream(), &fmt, &readings(), 250);
    assert_eq!((m.width, m.height), (Some(1920), Some(1080)));
    assert_eq!(m.fps.as_ref().unwrap().value, num(25.0));
    assert_eq!(m.pix_fmt, text("yuv420p10le"));
    assert_eq!(m.range_tag, text("tv"));
    assert_eq!(m.bitrate_kbps, Some(2500));
    assert!(m.is_container_rate && m.interlaced);
    assert_eq!(m.total_frames, Some(250));
    assert_eq!(m.encoder, text("hevc"));
    let mut v = stream();
    v.pix_fmt = text("gray");
    v.nb_frames = text("99");
    v.codec_name = text("");
    v.encoder_tag = text("Lavc61 libx265");
    let m = parse_media(&v, &fmt, &readings(), 250);
    assert_eq!(m.range_tag, text("pc"));
    assert_eq!(m.total_frames, Some(99));
    assert_eq!(m.encoder, text("libx265"));
}

#[test]
fn packets_count_where_frames_are_not_told() {
    assert_eq!(packet_count(" 120\n"), Some(120));
    assert_eq!(packet_count("0"), None);
    assert_eq!(packet_count("x"), None);
    let m = || MediaInfo { total_frames: Some(7), ..Default::default() };
    assert_eq!(with_counted(m(), false, Some(9)).total_frames, Some(9));
    assert_eq!(with_counted(m(), false, None).total_frames, Some(7));
    assert_eq!(with_counted(m(), true, Some(9)).total_frames, Some(7));
    assert_eq!(pick_stream(&vec![text("audio"), None, text("video")]), Some(2));
    assert_eq!(pick_stream(&vec![text("audio")]), Some(0));
    assert_eq!(pick_stream(&Vec::new()), None);
}

#[test]
fn probes_are_told_what_to_show() {
    let p = probe_args("a.mkv");
    assert_eq!(p[..6], ["-v", "quiet", "-probesize", "50M", "-print_format", "json"]);
    assert_eq!(p.last().unwrap(), "a.mkv");
    let c = count_args("a.mkv");
    assert!(c.contains(&"-count_packets".to_owned()));
    assert_eq!(c.last().unwrap(), "a.mkv");
    assert!(path_usable("a", true));
    assert!(!path_usable("  ", true));
    assert!(!path_usable("a", false));
}

fn known() -> MediaInfo {
    MediaInfo {
        width: Some(1280),
        height: Some(720),
        fps: figure(23.976, "23.98"),
        pix_fmt: text("yuv420p"),
        range_tag: text("tv"),
        bitrate_kbps: Some(1500),
        is_container_rate: true,
        duration: figure(61.5, "00:01:01.50"),
        total_frames: Some(1475),
        encoder: text("h264"),
        interlaced: false,
    }
}

#[test]
fn media_is_shown() {
    assert_eq!(table_media_text(&Some(known())), "h264, 720p, YUV420, 1500 kb/s");
    assert_eq!(table_media_text(&None), "-unknown-, -unknown-, -unknown-, -unknown-");
    assert_eq!(results_media_text(&Some(known())), "1280x720-23.98p, yuv420p (tv)");
    assert_eq!(results_media_text(&None), "-unknown-");
    assert_eq!(
        table_media_tooltip(&Some(known())),
        "Encoder: h264\nFrame size: 1280x720\nFrame Rate: 23.98 fps\nField Type: Progressive\n\
         Pixel Format: yuv420p\nColour Range: TV\nBitrate: 1500 kb/s*\nDuration: 00:01:01.50\n\
         Total Frames: 1475"
    );
    assert_eq!(
        reference_line(&known()),
        "Encoder: h264, Frame: 1280x720-23.98p, yuv420p (tv), Bitrate: 1500 kb/s*, \
         Duration: 00:01:01.50, Total Frames: 1475"
    );
    assert_eq!(reference_line(&MediaInfo::default()), "—");
}

#[test]
fn long_media_texts_are_cut_at_a_comma() {
    assert_eq!(cell_media_text("short", 38), "short");
    assert_eq!(cell_media_text("aaaa, bbbb, cccc", 12), "aaaa, bbbb…");
    assert_eq!(cell_media_text("abcdefgh", 4), "abc…");
    assert_eq!(cell_media_text("ab cdef", 4), "ab…");
    assert_eq!(cell_media_text("abc", 1), "…");
}

#[test]
fn frame_rates_are_read_by_their_shape() {
    assert!(matches!(rate_of(""), RateText::Unknown));
    assert!(matches!(rate_of("0/0"), RateText::Unknown));
    assert!(matches!(rate_of("25"), RateText::Number(s) if s == "25"));
    assert!(
        matches!(rate_of("30000/1001"), RateText::Ratio(n, d) if n == "30000" && d == "1001")
    );
    assert!(matches!(rate_of("1/2/3"), RateText::Ratio(n, d) if n == "1" && d == "2/3"));
    assert_eq!(ratio_rate(Some(num(50.0)), Some(num(2.0)), num(25.0)), Some(num(25.0)));
    assert_eq!(ratio_rate(Some(num(50.0)), Some(num(0.0)), num(0.0)), None);
    assert_eq!(ratio_rate(None, Some(num(2.0)), num(0.0)), None);
    assert_eq!(short_fraction("23.98"), "23.98");
    assert_eq!(short_fraction("29.50"), "29.5");
    assert_eq!(short_fraction("30.00"), "30");
}

#[test]
fn probes_fail_in_words() {
    assert_eq!(unprobed_reference("", true, true).unwrap().matches("-unknown-").count(), 4);
    assert_eq!(unprobed_reference("x", false, true), text("File not found"));
    assert_eq!(unprobed_reference("x", true, false), text("ffprobe not found"));
    assert_eq!(unprobed_reference("x", true, true), None);
    assert_eq!(reference_media_text(Probed::NoVideo).0, "No video stream");
    let (t, _, late) = reference_media_text(Probed::Timeout);
    assert_eq!((t.as_str(), late), ("Probe timed out", true));
    assert_eq!(reference_media_text(Probed::InvalidJson).0, "Probe failed: invalid output");
    assert!(reference_media_text(Probed::Spawn).0.starts_with("Probe failed: "));
    assert!(reference_media_text(Probed::Media(known())).1.is_some());
    let (cell, tip, info, late) = probe_table_text(Some(Probed::Timeout));
    assert_eq!(cell, "-unknown-, -unknown-, -unknown-…");
    assert!(tip.starts_with("Encoder: -unknown-\n"));
    assert!(info.is_none() && late);
    assert!(!probe_table_text(None).3);
}

// ---- The small picture ----

#[test]
fn long_files_are_shown_from_later_on() {
    assert_eq!(seek_candidates(Some(num(5.0))), vec!["4.0", "1.0", "0"]);
    assert_eq!(seek_candidates(Some(num(4.99))), vec!["1.0", "0"]);
    assert_eq!(seek_candidates(Some(num(0.5))), vec!["0"]);
    assert_eq!(seek_candidates(Some(num(0.0))), vec!["1.0", "0"]);
    assert_eq!(seek_candidates(Some(num(f64::NAN))), vec!["1.0", "0"]);
    assert_eq!(seek_candidates(None), vec!["1.0", "0"]);
    assert_eq!(thumb_duration("a", "a", Some(num(3.0))), Some(num(3.0)));
    let a = thumb_args("v.mkv", "4.0");
    assert_eq!(a[4..8], ["-ss", "4.0", "-i", "v.mkv"]);
    assert!(a.contains(&"scale=272:152:force_original_aspect_ratio=decrease".to_owned()));
    assert!(try_next(Tried::Nothing) && try_next(Tried::TimedOut));
    assert!(!try_next(Tried::Picture) && !try_next(Tried::Unstarted));
}

fn png(w: u32, h: u32) -> Vec<u8> {
    let img = image::RgbaImage::from_fn(w, h, |x, y| image::Rgba([x as u8, y as u8, 7, 255]));
    let mut bytes: Vec<u8> = Vec::new();
    img.write_to(&mut std::io::Cursor::new(&mut bytes), image::ImageFormat::Png).unwrap();
    bytes
}

#[test]
fn pictures_are_decoded_and_fitted() {
    let bytes = png(40, 20);
    assert!(bytes.len() > 100);
    let p = decode(&bytes).unwrap();
    assert_eq!((p.width, p.height, p.rgba.len()), (40, 20, 40 * 20 * 4));
    assert_eq!(p.rgba[..8], [0, 0, 7, 255, 1, 0, 7, 255]);
    let small = fit(p, 20, 10);
    assert_eq!((small.width, small.height, small.rgba.len()), (20, 10, 20 * 10 * 4));
    let q = decode(&bytes).unwrap();
    let before = q.rgba.clone();
    assert_eq!(fit(q, 40, 20).rgba, before);
    assert!(decode(&vec![1; 99]).is_none());
    assert!(decode(&vec![1; 200]).is_none());
    let empty = Picture { width: 0, height: 1, rgba: Vec::new() };
    assert!(take_picture(500, Some(empty)).is_none());
}

// ---- Plots ----

#[test]
fn plots_have_axes() {
    let d = plot_def(MetricKind::Ssim);
    assert_eq!((d.label, d.lo, d.hi), ("SSIM (higher is better, min 0, max 1)", num(0.0), num(1.0)));
    assert_eq!(plot_def(MetricKind::Cvvdp).hi, num(10.0));
    assert_eq!(tab_title(MetricKind::Psnr), "PSNR");
    assert_eq!(follow_live_tab(true, Some(MetricKind::Vmaf), MetricKind::Psnr), MetricKind::Vmaf);
    assert_eq!(follow_live_tab(false, Some(MetricKind::Vmaf), MetricKind::Psnr), MetricKind::Psnr);
    assert_eq!(follow_live_tab(true, None, MetricKind::Psnr), MetricKind::Psnr);
}

#[test]
fn the_extent_holds_every_value() {
    let e = extent(&vec![vec![num(3.0), num(-1.0)], vec![], vec![num(9.0), num(0.0), num(2.0)]]).unwrap();
    assert_eq!((e.longest, e.lo, e.hi), (3, num(-1.0), num(9.0)));
    assert!(extent(&vec![vec![]]).is_none());
}

#[test]
fn bounds_only_grow_in_a_run() {
    let b = |a: f64, z: f64| FitBounds { x: Some((num(1.0), num(z))), y: (num(a), num(z)) };
    let u = union_bounds(b(5.0, 10.0), b(2.0, 8.0));
    assert_eq!((u.x, u.y), (Some((num(1.0), num(10.0))), (num(2.0), num(10.0))));
    let mut f = PlotFit::new();
    let (first, _) = f.step(MetricKind::Psnr, true, b(5.0, 10.0));
    assert_eq!(first.y, (num(5.0), num(10.0)));
    let (second, _) = f.step(MetricKind::Psnr, true, b(6.0, 8.0));
    assert_eq!(second.y, (num(5.0), num(10.0)));
    let (other, _) = f.step(MetricKind::Ssim, true, b(6.0, 8.0));
    assert_eq!(other.y, (num(6.0), num(8.0)));
}

#[test]
fn thinning_keeps_the_extremes() {
    let mut v: Vec<Num> = (0..1000).map(|i| num((i % 10) as f64)).collect();
    v[333] = num(-50.0);
    v[777] = num(500.0);
    let drawn = decimate_minmax(&v, 100);
    assert!(drawn.len() <= 102);
    assert_eq!((drawn[0], drawn[drawn.len() - 1]), (0, 999));
    assert!(drawn.contains(&333) && drawn.contains(&777));
    assert!(drawn.windows(2).all(|w| w[0] <= w[1]));
    let few: Vec<Num> = (0..5).map(|i| num(i as f64)).collect();
    assert_eq!(decimate_minmax(&few, 100), vec![0, 1, 2, 3, 4]);
}

#[test]
fn picture_sizes_are_found_by_their_labels() {
    for s in PlotSize::all() {
        assert_eq!(PlotSize::from_label(s.label()), Some(s));
        let (w, h) = s.dims();
        assert_eq!(w, 4 * h);
        assert_eq!(s.label(), format!("{w}×{h}"));
    }
    assert_eq!(PlotSize::from_label("1x1"), None);
    assert_eq!(PlotSize::default(), PlotSize::S3200);
}

// ---- The state file ----

#[test]
fn the_first_readable_state_counts() {
    assert_eq!(state_path("/a"), "/a/ffmetrics-state.json");
    assert_eq!(
        candidate_paths(&strings(&["/a", "/b"])),
        strings(&["/a/ffmetrics-state.json", "/b/ffmetrics-state.json"])
    );
    assert!(matches!(load_step(Read::Unreadable), LoadStep::Next));
    assert!(matches!(load_step(Read::Corrupt), LoadStep::Next));
    let step = load_step(Read::State(AppState { ref_path: "r".to_owned(), ..AppState::default() }));
    match step {
        LoadStep::Found(s) => assert_eq!(s.ref_path, "r"),
        LoadStep::Next => panic!("a state"),
    }
    let held = |p: &str| Read::State(AppState { ref_path: p.to_owned(), ..AppState::default() });
    let found = load(vec![Read::Unreadable, Read::Corrupt, held("first"), held("second")]);
    assert_eq!(found.unwrap().ref_path, "first");
    assert!(load(vec![Read::Corrupt, Read::Unreadable]).is_none());
    assert!(load(Vec::new()).is_none());
}

#[test]
fn old_file_entries_are_ticked() {
    let e = FileEntry::from(FileEntryRaw::Path("a".to_owned()));
    assert_eq!((e.path.as_str(), e.included), ("a", true));
    let full = FileEntryRaw::Full(FileEntry { path: "b".to_owned(), included: false });
    let e = FileEntry::from(full);
    assert_eq!((e.path.as_str(), e.included), ("b", false));
}
