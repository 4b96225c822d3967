//! Metrics computed by ffmpeg filters: kinds, filtergraphs, arguments, and
//! what their output says.
use vstd::prelude::*;
use vstd::string::StringExecFns;
use crate::metrics::ffvship::FfvshipKind;
use crate::num::{is_nonzero, nonzero, Num};
use crate::probe::{same_i64, same_text, FigureView, MediaInfo, MediaView};
use crate::text::{dec_i64, dec_int, join, joined, put, put_all, same, starts_with, texts};

verus! {

/// A metric.
#[derive(Debug, Clone, Copy, PartialEq, Eq, Structural)]
pub enum MetricKind {
    Psnr,
    Ssim,
    Xpsnr,
    Vmaf,
    Ssim2,
    But,
    Cvvdp,
}

/// All metrics, in the order in which they run.
pub open spec fn all_kinds() -> Seq<MetricKind> {
    seq![
        MetricKind::Psnr,
        MetricKind::Ssim,
        MetricKind::Vmaf,
        MetricKind::Xpsnr,
        MetricKind::Ssim2,
        MetricKind::But,
        MetricKind::Cvvdp,
    ]
}

impl MetricKind {
    /// The place of a metric in the run order.
    pub open spec fn place(self) -> int {
        match self {
            MetricKind::Psnr => 0,
            MetricKind::Ssim => 1,
            MetricKind::Vmaf => 2,
            MetricKind::Xpsnr => 3,
            MetricKind::Ssim2 => 4,
            MetricKind::But => 5,
            MetricKind::Cvvdp => 6,
        }
    }

    /// All metrics, in the order in which they run.
    pub fn all() -> (r: Vec<MetricKind>)
        ensures
            r@ == all_kinds(),
            forall|i: int| 0 <= i < 7 ==> (#[trigger] r@[i]).place() == i,
    {
        let r = vec![
            MetricKind::Psnr,
            MetricKind::Ssim,
            MetricKind::Vmaf,
            MetricKind::Xpsnr,
            MetricKind::Ssim2,
            MetricKind::But,
            MetricKind::Cvvdp,
        ];
        assert(r@ =~= all_kinds());
        r
    }

    pub open spec fn name_text(self) -> Seq<char> {
        match self {
            MetricKind::Psnr => "PSNR"@,
            MetricKind::Ssim => "SSIM"@,
            MetricKind::Xpsnr => "XPSNR"@,
            MetricKind::Vmaf => "VMAF"@,
            MetricKind::Ssim2 => "SSIM2"@,
            MetricKind::But => "BUTTER"@,
            MetricKind::Cvvdp => "CVVDP"@,
        }
    }

    /// Display name for cells, tooltips, and logs.
    pub fn name(self) -> (r: &'static str)
        ensures
            r@ == self.name_text(),
    {
        match self {
            MetricKind::Psnr => "PSNR",
            MetricKind::Ssim => "SSIM",
            MetricKind::Xpsnr => "XPSNR",
            MetricKind::Vmaf => "VMAF",
            MetricKind::Ssim2 => "SSIM2",
            MetricKind::But => "BUTTER",
            MetricKind::Cvvdp => "CVVDP",
        }
    }

    pub open spec fn by_ffvship(self) -> bool {
        self is Ssim2 || self is But || self is Cvvdp
    }

    /// Whether FFVship computes the metric, not an ffmpeg filter.
    pub fn is_ffvship(self) -> (r: bool)
        ensures
            r == self.by_ffvship(),
    {
        matches!(self, MetricKind::Ssim2 | MetricKind::But | MetricKind::Cvvdp)
    }

    /// Whether the metric's run streams values frame by frame. VMAF has its
    /// scores only at the end.
    pub fn streams_live_values(self) -> (r: bool)
        ensures
            r == !(self is Vmaf),
    {
        !matches!(self, MetricKind::Vmaf)
    }

    pub open spec fn ffvship_spec(self) -> Option<FfvshipKind> {
        match self {
            MetricKind::Ssim2 => Some(FfvshipKind::Ssimulacra2),
            MetricKind::But => Some(FfvshipKind::Butteraugli),
            MetricKind::Cvvdp => Some(FfvshipKind::Cvvdp),
            _ => None,
        }
    }

    /// The FFVship metric; `None` for those of ffmpeg.
    pub fn ffvship_kind(self) -> (r: Option<FfvshipKind>)
        ensures
            r == self.ffvship_spec(),
    {
        match self {
            MetricKind::Ssim2 => Some(FfvshipKind::Ssimulacra2),
            MetricKind::But => Some(FfvshipKind::Butteraugli),
            MetricKind::Cvvdp => Some(FfvshipKind::Cvvdp),
            MetricKind::Psnr | MetricKind::Ssim | MetricKind::Xpsnr | MetricKind::Vmaf => None,
        }
    }

    pub open spec fn filter_text(self) -> Seq<char> {
        match self {
            MetricKind::Psnr => "psnr"@,
            MetricKind::Ssim => "ssim"@,
            MetricKind::Xpsnr => "xpsnr"@,
            _ => "libvmaf"@,
        }
    }

    /// The ffmpeg filter of the metric.
    pub fn filter(self) -> (r: &'static str)
        requires
            !self.by_ffvship(),
        ensures
            r@ == self.filter_text(),
    {
        match self {
            MetricKind::Psnr => "psnr",
            MetricKind::Ssim => "ssim",
            MetricKind::Xpsnr => "xpsnr",
            _ => "libvmaf",
        }
    }

    pub open spec fn order_text(self) -> Seq<char> {
        if self is Xpsnr {
            "[ref][main]"@
        } else {
            "[main][ref]"@
        }
    }

    /// The order of the filter's inputs: XPSNR alone takes the reference first.
    pub fn order(self) -> (r: &'static str)
        ensures
            r@ == self.order_text(),
    {
        match self {
            MetricKind::Xpsnr => "[ref][main]",
            _ => "[main][ref]",
        }
    }
}

/// The places number the metrics.
pub proof fn lemma_kind_places(k: MetricKind)
    ensures
        0 <= k.place() < 7,
        all_kinds().len() == 7,
        all_kinds()[k.place()] == k,
        forall|i: int| 0 <= i < 7 ==> (#[trigger] all_kinds()[i]).place() == i,
{
}

/// A metric is run by FFVship exactly where it has an FFVship metric.
pub proof fn lemma_ffvship_metrics(k: MetricKind)
    ensures
        k.by_ffvship() == (k.ffvship_spec() is Some),
{
}

/// How ffmpeg scales a picture.
#[derive(Debug, Clone, Copy, PartialEq, Eq, Structural)]
pub enum ScaleMethod {
    Bicubic,
    FfmpegDefault,
    Neighbor,
    Gauss,
    Bilinear,
    Lanczos,
    Spline,
    Sinc,
}

impl Default for ScaleMethod {
    fn default() -> (r: ScaleMethod)
        ensures
            r == ScaleMethod::Bicubic,
    {
        ScaleMethod::Bicubic
    }
}

pub open spec fn all_methods() -> Seq<ScaleMethod> {
    seq![
        ScaleMethod::Bicubic,
        ScaleMethod::FfmpegDefault,
        ScaleMethod::Neighbor,
        ScaleMethod::Gauss,
        ScaleMethod::Bilinear,
        ScaleMethod::Lanczos,
        ScaleMethod::Spline,
        ScaleMethod::Sinc,
    ]
}

impl ScaleMethod {
    /// All methods: the default first.
    pub fn all() -> (r: Vec<ScaleMethod>)
        ensures
            r@ == all_methods(),
    {
        let r = vec![
            ScaleMethod::Bicubic,
            ScaleMethod::FfmpegDefault,
            ScaleMethod::Neighbor,
            ScaleMethod::Gauss,
            ScaleMethod::Bilinear,
            ScaleMethod::Lanczos,
            ScaleMethod::Spline,
            ScaleMethod::Sinc,
        ];
        assert(r@ =~= all_methods());
        r
    }

    pub open spec fn label_text(self) -> Seq<char> {
        match self {
            ScaleMethod::Bicubic => "Bicubic"@,
            ScaleMethod::FfmpegDefault => "FFmpeg default"@,
            ScaleMethod::Neighbor => "Nearest neighbor"@,
            ScaleMethod::Gauss => "Gauss"@,
            ScaleMethod::Bilinear => "Bilinear"@,
            ScaleMethod::Lanczos => "Lanczos"@,
            ScaleMethod::Spline => "Spline"@,
            ScaleMethod::Sinc => "Sinc"@,
        }
    }

    pub fn label(self) -> (r: &'static str)
        ensures
            r@ == self.label_text(),
    {
        match self {
            ScaleMethod::Bicubic => "Bicubic",
            ScaleMethod::FfmpegDefault => "FFmpeg default",
            ScaleMethod::Neighbor => "Nearest neighbor",
            ScaleMethod::Gauss => "Gauss",
            ScaleMethod::Bilinear => "Bilinear",
            ScaleMethod::Lanczos => "Lanczos",
            ScaleMethod::Spline => "Spline",
            ScaleMethod::Sinc => "Sinc",
        }
    }

    pub open spec fn flag_text(self) -> Option<Seq<char>> {
        match self {
            ScaleMethod::Bicubic => Some("bicubic"@),
            ScaleMethod::FfmpegDefault => None,
            ScaleMethod::Neighbor => Some("neighbor"@),
            ScaleMethod::Gauss => Some("gauss"@),
            ScaleMethod::Bilinear => Some("bilinear"@),
            ScaleMethod::Lanczos => Some("lanczos"@),
            ScaleMethod::Spline => Some("spline"@),
            ScaleMethod::Sinc => Some("sinc"@),
        }
    }

    /// The libswscale flag; `None` leaves the choice to ffmpeg.
    pub fn flag(self) -> (r: Option<&'static str>)
        ensures
            match r {
                Some(s) => self.flag_text() == Some(s@),
                None => self.flag_text() is None,
            },
    {
        match self {
            ScaleMethod::Bicubic => Some("bicubic"),
            ScaleMethod::FfmpegDefault => None,
            ScaleMethod::Neighbor => Some("neighbor"),
            ScaleMethod::Gauss => Some("gauss"),
            ScaleMethod::Bilinear => Some("bilinear"),
            ScaleMethod::Lanczos => Some("lanczos"),
            ScaleMethod::Spline => Some("spline"),
            ScaleMethod::Sinc => Some("sinc"),
        }
    }

    /// The method with a label; `None` where no method has it.
    pub fn from_label(s: &str) -> (r: Option<ScaleMethod>)
        ensures
            match r {
                Some(m) => m.label_text() == s@,
                None => forall|m: ScaleMethod| (#[trigger] m.label_text()) != s@,
            },
    {
        let all = ScaleMethod::all();
        let mut i: usize = 0;
        while i < all.len()
            invariant
                i <= all@.len(),
                all@ == all_methods(),
                forall|j: int| 0 <= j < i ==> (#[trigger] all@[j]).label_text() != s@,
            decreases all.len() - i,
        {
            if crate::text::same(all[i].label(), s) {
                return Some(all[i]);
            }
            i += 1;
        }
        assert forall|m: ScaleMethod| (#[trigger] m.label_text()) != s@ by {
            let k: int = match m {
                ScaleMethod::Bicubic => 0,
                ScaleMethod::FfmpegDefault => 1,
                ScaleMethod::Neighbor => 2,
                ScaleMethod::Gauss => 3,
                ScaleMethod::Bilinear => 4,
                ScaleMethod::Lanczos => 5,
                ScaleMethod::Spline => 6,
                ScaleMethod::Sinc => 7,
            };
            assert(all@[k] == m);
        }
        None
    }
}

/// No two scaling methods share a label, so a stored label gives back the
/// method that it was stored for.
pub proof fn lemma_scale_labels_distinct(a: ScaleMethod, b: ScaleMethod)
    requires
        a.label_text() == b.label_text(),
    ensures
        a == b,
{
    reveal_strlit("Bicubic");
    reveal_strlit("FFmpeg default");
    reveal_strlit("Nearest neighbor");
    reveal_strlit("Gauss");
    reveal_strlit("Bilinear");
    reveal_strlit("Lanczos");
    reveal_strlit("Spline");
    reveal_strlit("Sinc");
    assert("Bicubic"@.len() == 7 && "FFmpeg default"@.len() == 14 && "Nearest neighbor"@.len() == 16);
    assert("Gauss"@.len() == 5 && "Bilinear"@.len() == 8 && "Lanczos"@.len() == 7);
    assert("Spline"@.len() == 6 && "Sinc"@.len() == 4);
    assert("Bicubic"@[0] == 'B' && "Lanczos"@[0] == 'L');
}

/// `scale=w:h`, with the method's flag where it has one.
pub open spec fn scale_text(w: int, h: int, method: ScaleMethod) -> Seq<char> {
    let size = "scale="@ + dec_int(w) + ":"@ + dec_int(h);
    match method.flag_text() {
        Some(f) => size + ":flags="@ + f,
        None => size,
    }
}

/// The `scale` filter to a size.
pub fn scale_filter(w: i64, h: i64, method: ScaleMethod) -> (r: String)
    ensures
        r@ == scale_text(w as int, h as int, method),
{
    let mut s = "scale=".to_owned();
    s.append(dec_i64(w).as_str());
    s.append(":");
    s.append(dec_i64(h).as_str());
    if let Some(f) = method.flag() {
        s.append(":flags=");
        s.append(f);
    }
    s
}

/// Timestamp reset at the head of every filtergraph leg.
pub open spec fn norm_text() -> Seq<char> {
    "settb=AVTB,setpts=PTS-STARTPTS"@
}

/// The part of the inputs that a run measures: seconds skipped at the start
/// and seconds measured, with the printed forms of both ends of the window.
#[derive(Debug)]
pub struct Trim {
    pub skip: Option<Num>,
    pub clip_dur: Option<Num>,
    /// Printed form of the skip, or of zero.
    pub start: String,
    /// Printed form of the skip plus the duration.
    pub end: String,
}

pub struct TrimView {
    pub skip: Option<Num>,
    pub clip_dur: Option<Num>,
    pub start: Seq<char>,
    pub end: Seq<char>,
}

impl View for Trim {
    type V = TrimView;

    open spec fn view(&self) -> TrimView {
        TrimView { skip: self.skip, clip_dur: self.clip_dur, start: self.start@, end: self.end@ }
    }
}

/// No segment, or one.
pub open spec fn maybe(o: Option<Seq<char>>) -> Seq<Seq<char>> {
    match o {
        Some(s) => seq![s],
        None => Seq::empty(),
    }
}

/// The `trim` segment, where a skip or a duration other than zero is set.
pub open spec fn window_text(t: TrimView) -> Option<Seq<char>> {
    if nonzero(t.clip_dur) {
        Some("trim=start="@ + t.start + ":end="@ + t.end)
    } else if nonzero(t.skip) {
        Some("trim=start="@ + t.start)
    } else {
        None
    }
}

/// The trim segments shared by every filtergraph leg: one, or none where
/// neither a skip nor a duration other than zero is set.
pub fn trim_window(trim: &Trim) -> (r: Vec<String>)
    ensures
        texts(r@) == maybe(window_text(trim@)),
{
    let mut r: Vec<String> = Vec::new();
    if is_nonzero(trim.skip) || is_nonzero(trim.clip_dur) {
        let mut s = "trim=start=".to_owned();
        s.append(trim.start.as_str());
        if is_nonzero(trim.clip_dur) {
            s.append(":end=");
            s.append(trim.end.as_str());
        }
        put(&mut r, s.as_str());
    }
    assert(texts(r@) =~= maybe(window_text(trim@)));
    r
}

/// The `setrange` segment of a colour range that ffmpeg knows.
pub open spec fn range_text(tag: Option<Seq<char>>) -> Option<Seq<char>> {
    match tag {
        Some(t) => if t == "tv"@ || t == "pc"@ || t == "limited"@ || t == "full"@ {
            Some("setrange=range="@ + t)
        } else {
            None
        },
        None => None,
    }
}

/// The `setrange` segment that tags a leg with its own colour range; `None`
/// for an unknown range.
pub fn setrange_segment(range_tag: &Option<String>) -> (r: Option<String>)
    ensures
        crate::outside::opt_text(r) == range_text(crate::outside::opt_text(*range_tag)),
{
    match range_tag {
        Some(t) => {
            let t = t.as_str();
            if same(t, "tv") || same(t, "pc") || same(t, "limited") || same(t, "full") {
                let mut s = "setrange=range=".to_owned();
                s.append(t);
                Some(s)
            } else {
                None
            }
        },
        None => None,
    }
}

/// The segment that scales the distorted picture to the reference's size,
/// where the sizes differ and the reference's is known.
pub open spec fn fit_text(reference: MediaView, dist: MediaView, scaler: ScaleMethod) -> Option<Seq<char>> {
    if (dist.width != reference.width || dist.height != reference.height) && reference.width is Some
        && reference.height is Some {
        Some(scale_text(reference.width->0 as int, reference.height->0 as int, scaler))
    } else {
        None
    }
}

/// A leg's own `setrange` segment, where the two legs' ranges differ.
pub open spec fn leg_range(own: MediaView, other: MediaView) -> Option<Seq<char>> {
    if own.range_tag != other.range_tag {
        range_text(own.range_tag)
    } else {
        None
    }
}

/// The segment that converts the distorted picture to the reference's pixel
/// format, where that is known and differs.
pub open spec fn format_text(reference: MediaView, dist: MediaView) -> Option<Seq<char>> {
    match reference.pix_fmt {
        Some(p) => if dist.pix_fmt != reference.pix_fmt {
            Some("format="@ + p)
        } else {
            None
        },
        None => None,
    }
}

/// The segments of the distorted leg.
pub open spec fn main_leg(
    reference: MediaView,
    dist: MediaView,
    trim: TrimView,
    scaler: ScaleMethod,
) -> Seq<Seq<char>> {
    maybe(window_text(trim)) + seq![norm_text()] + maybe(fit_text(reference, dist, scaler)) + maybe(
        leg_range(dist, reference),
    ) + maybe(format_text(reference, dist))
}

/// The segments of the reference leg.
pub open spec fn ref_leg(reference: MediaView, dist: MediaView, trim: TrimView) -> Seq<Seq<char>> {
    maybe(window_text(trim)) + seq![norm_text()] + maybe(leg_range(reference, dist))
}

/// The whole filtergraph of a metric.
pub open spec fn graph_text(
    kind: MetricKind,
    reference: MediaView,
    dist: MediaView,
    trim: TrimView,
    scaler: ScaleMethod,
) -> Seq<char> {
    "[0:v]"@ + join(main_leg(reference, dist, trim, scaler), ","@) + "[main];[1:v]"@ + join(
        ref_leg(reference, dist, trim),
        ","@,
    ) + "[ref];"@ + kind.order_text() + kind.filter_text() + "=eof_action=endall:stats_file=-"@
}

pub fn put_maybe(v: &mut Vec<String>, o: &Option<String>)
    ensures
        texts(final(v)@) == texts(old(v)@) + maybe(crate::outside::opt_text(*o)),
{
    match o {
        Some(s) => {
            put(v, s.as_str());
        },
        None => {},
    }
    assert(texts(v@) =~= texts(old(v)@) + maybe(crate::outside::opt_text(*o)));
}

/// The `scale` segment that brings the distorted picture to the reference's
/// size.
pub fn fit_segment(ref_info: &MediaInfo, dist_info: &MediaInfo, scaler: ScaleMethod) -> (r: Option<
    String,
>)
    ensures
        crate::outside::opt_text(r) == fit_text(ref_info@, dist_info@, scaler),
{
    if !same_i64(dist_info.width, ref_info.width) || !same_i64(dist_info.height, ref_info.height) {
        if let Some(w) = ref_info.width {
            if let Some(h) = ref_info.height {
                return Some(scale_filter(w, h, scaler));
            }
        }
    }
    None
}

/// A leg's own `setrange` segment.
pub fn range_segment(own: &MediaInfo, other: &MediaInfo) -> (r: Option<String>)
    ensures
        crate::outside::opt_text(r) == leg_range(own@, other@),
{
    if !same_text(&own.range_tag, &other.range_tag) {
        setrange_segment(&own.range_tag)
    } else {
        None
    }
}

/// The `format` segment that brings the distorted picture to the reference's
/// pixel format.
pub fn format_segment(ref_info: &MediaInfo, dist_info: &MediaInfo) -> (r: Option<String>)
    ensures
        crate::outside::opt_text(r) == format_text(ref_info@, dist_info@),
{
    match &ref_info.pix_fmt {
        Some(p) => if !same_text(&dist_info.pix_fmt, &ref_info.pix_fmt) {
            let mut s = "format=".to_owned();
            s.append(p.as_str());
            Some(s)
        } else {
            None
        },
        None => None,
    }
}

/// The filtergraph of a metric. The distorted file is the first input and is
/// scaled, tagged and converted to meet the reference; the reference is only
/// trimmed and tagged.
pub fn filtergraph(
    kind: MetricKind,
    ref_info: &MediaInfo,
    dist_info: &MediaInfo,
    trim: &Trim,
    scaler: ScaleMethod,
) -> (r: String)
    requires
        !kind.by_ffvship(),
    ensures
        r@ == graph_text(kind, ref_info@, dist_info@, trim@, scaler),
{
    let mut pre = trim_window(trim);
    put(&mut pre, "settb=AVTB,setpts=PTS-STARTPTS");
    assert(texts(pre@) =~= maybe(window_text(trim@)) + seq![norm_text()]);
    put_maybe(&mut pre, &fit_segment(ref_info, dist_info, scaler));
    put_maybe(&mut pre, &range_segment(dist_info, ref_info));
    put_maybe(&mut pre, &format_segment(ref_info, dist_info));
    let mut leg = trim_window(trim);
    put(&mut leg, "settb=AVTB,setpts=PTS-STARTPTS");
    assert(texts(leg@) =~= maybe(window_text(trim@)) + seq![norm_text()]);
    put_maybe(&mut leg, &range_segment(ref_info, dist_info));
    let mut s = "[0:v]".to_owned();
    s.append(joined(&pre, ",").as_str());
    s.append("[main];[1:v]");
    s.append(joined(&leg, ",").as_str());
    s.append("[ref];");
    s.append(kind.order());
    s.append(kind.filter());
    s.append("=eof_action=endall:stats_file=-");
    s
}

/// Streams that match in size, colour range and pixel format are neither
/// scaled nor tagged nor converted: both legs are the same.
pub proof fn lemma_matching_streams_pass_through(
    reference: MediaView,
    dist: MediaView,
    trim: TrimView,
    scaler: ScaleMethod,
)
    requires
        dist.width == reference.width,
        dist.height == reference.height,
        dist.range_tag == reference.range_tag,
        dist.pix_fmt == reference.pix_fmt,
    ensures
        main_leg(reference, dist, trim, scaler) == maybe(window_text(trim)) + seq![norm_text()],
        ref_leg(reference, dist, trim) == main_leg(reference, dist, trim, scaler),
{
    assert(main_leg(reference, dist, trim, scaler) =~= maybe(window_text(trim)) + seq![norm_text()]);
    assert(ref_leg(reference, dist, trim) =~= maybe(window_text(trim)) + seq![norm_text()]);
}

/// A skip of zero and a duration of zero set no trim.
pub proof fn lemma_zero_trim_is_no_trim(t: TrimView)
    requires
        t.skip is Some ==> t.skip->0.zero(),
        t.clip_dur is Some ==> t.clip_dur->0.zero(),
    ensures
        window_text(t) is None,
{
}

/// The frame rate that both inputs are read at: the reference's, or else the
/// distorted file's.
pub open spec fn input_rate(reference: MediaView, dist: MediaView) -> Option<FigureView> {
    if reference.fps is Some {
        reference.fps
    } else {
        dist.fps
    }
}

pub open spec fn rate_texts(reference: MediaView, dist: MediaView) -> Seq<Seq<char>> {
    match input_rate(reference, dist) {
        Some(f) => seq!["-r"@, f.text],
        None => Seq::empty(),
    }
}

/// The `-r` arguments before an input.
pub fn rate_args(ref_info: &MediaInfo, dist_info: &MediaInfo) -> (r: Vec<String>)
    ensures
        texts(r@) == rate_texts(ref_info@, dist_info@),
{
    let mut r: Vec<String> = Vec::new();
    match &ref_info.fps {
        Some(f) => {
            put(&mut r, "-r");
            put(&mut r, f.text.as_str());
        },
        None => match &dist_info.fps {
            Some(f) => {
                put(&mut r, "-r");
                put(&mut r, f.text.as_str());
            },
            None => {},
        },
    }
    assert(texts(r@) =~= rate_texts(ref_info@, dist_info@));
    r
}

/// The arguments around a filtergraph: both inputs at one rate, the distorted
/// file first, and no output.
pub open spec fn run_texts(
    ref_path: Seq<char>,
    dist_path: Seq<char>,
    rate: Seq<Seq<char>>,
    graph: Seq<char>,
) -> Seq<Seq<char>> {
    seq!["-hide_banner"@, "-nostdin"@, "-probesize"@, "50M"@] + rate + seq!["-i"@, dist_path] + rate
        + seq!["-i"@, ref_path, "-filter_complex"@, graph, "-f"@, "null"@, "-"@]
}

pub fn run_args(ref_path: &str, dist_path: &str, rate: &Vec<String>, graph: &str) -> (r: Vec<String>)
    ensures
        texts(r@) == run_texts(ref_path@, dist_path@, texts(rate@), graph@),
{
    let mut args: Vec<String> = Vec::new();
    put(&mut args, "-hide_banner");
    put(&mut args, "-nostdin");
    put(&mut args, "-probesize");
    put(&mut args, "50M");
    put_all(&mut args, rate);
    put(&mut args, "-i");
    put(&mut args, dist_path);
    put_all(&mut args, rate);
    put(&mut args, "-i");
    put(&mut args, ref_path);
    put(&mut args, "-filter_complex");
    put(&mut args, graph);
    put(&mut args, "-f");
    put(&mut args, "null");
    put(&mut args, "-");
    assert(texts(args@) =~= run_texts(ref_path@, dist_path@, texts(rate@), graph@));
    args
}

/// The ffmpeg arguments of a filter metric's run.
pub fn build_args(
    kind: MetricKind,
    ref_path: &str,
    dist_path: &str,
    ref_info: &MediaInfo,
    dist_info: &MediaInfo,
    trim: &Trim,
    scaler: ScaleMethod,
) -> (r: Vec<String>)
    requires
        !kind.by_ffvship(),
    ensures
        texts(r@) == run_texts(
            ref_path@,
            dist_path@,
            rate_texts(ref_info@, dist_info@),
            graph_text(kind, ref_info@, dist_info@, trim@, scaler),
        ),
{
    let rate = rate_args(ref_info, dist_info);
    let graph = filtergraph(kind, ref_info, dist_info, trim, scaler);
    run_args(ref_path, dist_path, &rate, graph.as_str())
}

// ---- What the graph does ----

pub proof fn lemma_begins_otherwise(s: Seq<char>, p: Seq<char>, i: int)
    requires
        0 <= i < p.len(),
        s.len() <= i || s[i] != p[i],
    ensures
        !starts_with(s, p),
{
    if starts_with(s, p) {
        assert(s.subrange(0, p.len() as int)[i] == p[i]);
    }
}

/// Whether a segment scales to a size, by whatever method.
pub open spec fn scales_to(segment: Seq<char>, w: int, h: int) -> bool {
    let size = "scale="@ + dec_int(w) + ":"@ + dec_int(h);
    segment == size || starts_with(segment, size + ":flags="@)
}

/// Whether a colour range is one that ffmpeg can be told.
pub open spec fn can_be_told(tag: Option<Seq<char>>) -> bool {
    tag == Some("tv"@) || tag == Some("pc"@) || tag == Some("limited"@) || tag == Some("full"@)
}

/// Whether a time is set that cuts something off.
pub open spec fn cuts(t: Option<Num>) -> bool {
    t is Some && !t->0.zero()
}

/// Whether a leg first cuts the times that are set, and then starts its clock
/// at zero.
pub open spec fn starts_cut(leg: Seq<Seq<char>>, t: TrimView) -> bool {
    let clock = "settb=AVTB,setpts=PTS-STARTPTS"@;
    if cuts(t.clip_dur) {
        leg.len() >= 2 && leg[0] == "trim=start="@ + t.start + ":end="@ + t.end && leg[1] == clock
    } else if cuts(t.skip) {
        leg.len() >= 2 && leg[0] == "trim=start="@ + t.start && leg[1] == clock
    } else {
        leg.len() >= 1 && leg[0] == clock
    }
}

/// Whether a leg has a segment of a filter.
pub open spec fn has_filter(leg: Seq<Seq<char>>, filter: Seq<char>) -> bool {
    exists|i: int| 0 <= i < leg.len() && #[trigger] starts_with(leg[i], filter)
}

/// Whether a leg has a segment that scales to a size.
pub open spec fn has_scale_to(leg: Seq<Seq<char>>, w: int, h: int) -> bool {
    exists|i: int| 0 <= i < leg.len() && #[trigger] scales_to(leg[i], w, h)
}

pub proof fn lemma_scale_segment(w: int, h: int, method: ScaleMethod)
    ensures
        scales_to(scale_text(w, h, method), w, h),
        starts_with(scale_text(w, h, method), "scale="@),
{
    let head = "scale="@;
    let size = head + dec_int(w) + ":"@ + dec_int(h);
    let s = scale_text(w, h, method);
    assert(s.subrange(0, head.len() as int) =~= head);
    if method.flag_text() is Some {
        let p = size + ":flags="@;
        assert(s.subrange(0, p.len() as int) =~= p);
    }
}

pub proof fn lemma_other_segments(t: TrimView, tag: Seq<char>, p: Seq<char>)
    ensures
        ({
            let all = seq![
                "trim=start="@ + t.start + ":end="@ + t.end,
                "trim=start="@ + t.start,
                "settb=AVTB,setpts=PTS-STARTPTS"@,
            ];
            &&& forall|i: int|
                0 <= i < 3 ==> !starts_with(#[trigger] all[i], "scale="@) && !starts_with(
                    all[i],
                    "setrange="@,
                ) && !starts_with(all[i], "format="@)
            &&& !starts_with("setrange=range="@ + tag, "scale="@)
            &&& !starts_with("setrange=range="@ + tag, "format="@)
            &&& !starts_with("format="@ + p, "scale="@)
            &&& !starts_with("format="@ + p, "setrange="@)
        }),
{
    reveal_strlit("trim=start=");
    reveal_strlit("settb=AVTB,setpts=PTS-STARTPTS");
    reveal_strlit("scale=");
    reveal_strlit("setrange=");
    reveal_strlit("setrange=range=");
    reveal_strlit("format=");
    let a = "trim=start="@ + t.start + ":end="@ + t.end;
    let b = "trim=start="@ + t.start;
    let c = "settb=AVTB,setpts=PTS-STARTPTS"@;
    let r = "setrange=range="@ + tag;
    let f = "format="@ + p;
    lemma_begins_otherwise(a, "scale="@, 0);
    lemma_begins_otherwise(a, "setrange="@, 0);
    lemma_begins_otherwise(a, "format="@, 0);
    lemma_begins_otherwise(b, "scale="@, 0);
    lemma_begins_otherwise(b, "setrange="@, 0);
    lemma_begins_otherwise(b, "format="@, 0);
    lemma_begins_otherwise(c, "scale="@, 1);
    lemma_begins_otherwise(c, "setrange="@, 3);
    lemma_begins_otherwise(c, "format="@, 0);
    lemma_begins_otherwise(r, "scale="@, 1);
    lemma_begins_otherwise(r, "format="@, 0);
    lemma_begins_otherwise(f, "scale="@, 0);
    lemma_begins_otherwise(f, "setrange="@, 0);
}

pub proof fn lemma_scale_is_no_other(w: int, h: int, method: ScaleMethod)
    ensures
        !starts_with(scale_text(w, h, method), "setrange="@),
        !starts_with(scale_text(w, h, method), "format="@),
{
    reveal_strlit("scale=");
    reveal_strlit("setrange=");
    reveal_strlit("format=");
    lemma_begins_otherwise(scale_text(w, h, method), "setrange="@, 1);
    lemma_begins_otherwise(scale_text(w, h, method), "format="@, 0);
}

/// The graph of a filter metric compares like with like. The first input is
/// the distorted file, the second the reference. Both legs cut the same times
/// off and start their clocks at zero. Where the reference's size is known, the
/// distorted picture is scaled to exactly that size whenever its width or its
/// height is another, and not otherwise; the reference is never scaled. Where
/// the colour ranges differ, each leg is told its own, and not otherwise. The
/// distorted picture is converted last, to the reference's pixel format, where
/// that is known and another. XPSNR takes the reference first, PSNR and SSIM
/// the distorted picture.
pub proof fn lemma_graph_compares_like_with_like(
    kind: MetricKind,
    reference: MediaView,
    dist: MediaView,
    trim: TrimView,
    scaler: ScaleMethod,
) -> (legs: (Seq<Seq<char>>, Seq<Seq<char>>))
    requires
        kind is Psnr || kind is Ssim || kind is Xpsnr,
    ensures
        graph_text(kind, reference, dist, trim, scaler) == "[0:v]"@ + join(legs.0, ","@)
            + "[main];[1:v]"@ + join(legs.1, ","@) + "[ref];"@ + (match kind {
            MetricKind::Psnr => "[main][ref]"@ + "psnr"@,
            MetricKind::Ssim => "[main][ref]"@ + "ssim"@,
            _ => "[ref][main]"@ + "xpsnr"@,
        }) + "=eof_action=endall:stats_file=-"@,
        starts_cut(legs.0, trim) && starts_cut(legs.1, trim),
        ({
            let sized = reference.width is Some && reference.height is Some;
            let differs = dist.width != reference.width || dist.height != reference.height;
            &&& sized && differs ==> has_scale_to(
                legs.0,
                reference.width->0 as int,
                reference.height->0 as int,
            )
            &&& has_filter(legs.0, "scale="@) ==> sized && differs
            &&& !has_filter(legs.1, "scale="@)
        }),
        ({
            let differs = dist.range_tag != reference.range_tag;
            &&& differs && can_be_told(dist.range_tag) ==> legs.0.contains(
                "setrange=range="@ + dist.range_tag->0,
            )
            &&& differs && can_be_told(reference.range_tag) ==> legs.1.contains(
                "setrange=range="@ + reference.range_tag->0,
            )
            &&& has_filter(legs.0, "setrange="@) ==> differs && can_be_told(dist.range_tag)
            &&& has_filter(legs.1, "setrange="@) ==> differs && can_be_told(reference.range_tag)
        }),
        ({
            let differs = reference.pix_fmt is Some && dist.pix_fmt != reference.pix_fmt;
            &&& differs ==> legs.0.last() == "format="@ + reference.pix_fmt->0
            &&& has_filter(legs.0, "format="@) ==> differs
            &&& !has_filter(legs.1, "format="@)
        }),
{
    let a = main_leg(reference, dist, trim, scaler);
    let b = ref_leg(reference, dist, trim);
    let fit = fit_text(reference, dist, scaler);
    let (w, h) = (reference.width->0 as int, reference.height->0 as int);
    let head = maybe(window_text(trim)) + seq![norm_text()];
    let n = head.len() as int;
    let own = leg_range(dist, reference);
    let told = leg_range(reference, dist);
    lemma_other_segments(trim, dist.range_tag->0, reference.pix_fmt->0);
    lemma_other_segments(trim, reference.range_tag->0, reference.pix_fmt->0);
    lemma_scale_segment(w, h, scaler);
    lemma_scale_is_no_other(w, h, scaler);
    let m = n + maybe(fit).len();
    let k = m + maybe(own).len();
    assert(a.len() == k + maybe(format_text(reference, dist)).len());
    assert forall|i: int| 0 <= i < n implies a[i] == head[i] && b[i] == head[i] by {}
    let all = seq![
        "trim=start="@ + trim.start + ":end="@ + trim.end,
        "trim=start="@ + trim.start,
        "settb=AVTB,setpts=PTS-STARTPTS"@,
    ];
    assert forall|i: int| 0 <= i < n implies !starts_with(#[trigger] head[i], "scale="@)
        && !starts_with(head[i], "setrange="@) && !starts_with(head[i], "format="@) by {
        assert(head[i] == all[0] || head[i] == all[1] || head[i] == all[2]);
    }
    if fit is Some {
        assert(a[n] == fit->0);
        assert(scales_to(a[n], w, h));
    }
    if own is Some {
        assert(a[m] == own->0);
    }
    if told is Some {
        assert(b[n] == told->0);
    }
    if format_text(reference, dist) is Some {
        assert(a[k] == "format="@ + reference.pix_fmt->0);
        assert(a.last() == a[k]);
    }
    assert forall|i: int| 0 <= i < a.len() && #[trigger] starts_with(a[i], "scale="@) implies fit is Some by {
        if i < n {
            assert(a[i] == head[i]);
        }
    }
    assert forall|i: int| 0 <= i < a.len() && #[trigger] starts_with(a[i], "setrange="@) implies own is Some by {
        if i < n {
            assert(a[i] == head[i]);
        }
    }
    assert forall|i: int| 0 <= i < a.len() && #[trigger] starts_with(a[i], "format="@) implies format_text(
        reference,
        dist,
    ) is Some by {
        if i < n {
            assert(a[i] == head[i]);
        }
    }
    assert forall|i: int| 0 <= i < b.len() implies !(#[trigger] starts_with(b[i], "scale="@)) by {
        if i < n {
            assert(b[i] == head[i]);
        }
    }
    assert forall|i: int| 0 <= i < b.len() && #[trigger] starts_with(b[i], "setrange="@) implies told is Some by {
        if i < n {
            assert(b[i] == head[i]);
        }
    }
    assert forall|i: int| 0 <= i < b.len() implies !(#[trigger] starts_with(b[i], "format="@)) by {
        if i < n {
            assert(b[i] == head[i]);
        }
    }
    assert(graph_text(kind, reference, dist, trim, scaler) =~= "[0:v]"@ + join(a, ","@)
        + "[main];[1:v]"@ + join(b, ","@) + "[ref];"@ + (match kind {
        MetricKind::Psnr => "[main][ref]"@ + "psnr"@,
        MetricKind::Ssim => "[main][ref]"@ + "ssim"@,
        _ => "[ref][main]"@ + "xpsnr"@,
    }) + "=eof_action=endall:stats_file=-"@);
    (a, b)
}

/// The first input of a run is the distorted file and the second the
/// reference. Both are read at one rate: the reference's, or the distorted
/// file's where that is not known, or their own where neither is. The graph is
/// what is run on them.
pub proof fn lemma_inputs_stand_in_order(
    reference: MediaView,
    dist: MediaView,
    ref_path: Seq<char>,
    dist_path: Seq<char>,
    graph: Seq<char>,
)
    ensures
        ({
            let args = run_texts(ref_path, dist_path, rate_texts(reference, dist), graph);
            let known = reference.fps is Some || dist.fps is Some;
            let rate = if reference.fps is Some {
                reference.fps->0.text
            } else {
                dist.fps->0.text
            };
            let i: int = if known {
                6
            } else {
                4
            };
            let j: int = if known {
                10
            } else {
                6
            };
            &&& args.len() == j + 7
            &&& args[i] == "-i"@ && args[i + 1] == dist_path
            &&& args[j] == "-i"@ && args[j + 1] == ref_path
            &&& known ==> args[i - 2] == "-r"@ && args[i - 1] == rate && args[j - 2] == "-r"@ && args[j
                - 1] == rate
            &&& args[j + 2] == "-filter_complex"@ && args[j + 3] == graph
            &&& args[j + 4] == "-f"@ && args[j + 5] == "null"@ && args[j + 6] == "-"@
        }),
{
}

} // verus!
