//! The settings of the application.
use vstd::prelude::*;
use crate::metrics::ffmpeg::{MetricKind, ScaleMethod};
use crate::metrics::vmaf::{Pooling, VmafCfg, VmafView};
use crate::plot::PlotSize;
use crate::text::{
    blank, contains, holds, is_blank, parse_i64, parse_int, parse_nat, parse_u32, same, split_of,
    split_on, texts, trim, trimmed,
};

verus! {

/// The reference and the part of it that is measured.
#[derive(Debug)]
pub struct ReferenceInputs {
    pub path: String,
    pub duration: String,
    pub skip: String,
    /// The pixel format that both inputs are brought to, as offered.
    pub pixfmt: String,
}

pub struct ReferenceView {
    pub path: Seq<char>,
    pub duration: Seq<char>,
    pub skip: Seq<char>,
    pub pixfmt: Seq<char>,
}

impl View for ReferenceInputs {
    type V = ReferenceView;

    open spec fn view(&self) -> ReferenceView {
        ReferenceView {
            path: self.path@,
            duration: self.duration@,
            skip: self.skip@,
            pixfmt: self.pixfmt@,
        }
    }
}

/// Which metrics are ticked.
#[derive(Debug, Clone, Copy, PartialEq, Eq, Structural)]
pub struct MetricToggles {
    pub psnr: bool,
    pub ssim: bool,
    pub vmaf: bool,
    pub xpsnr: bool,
    pub ssim2: bool,
    pub butteraugli: bool,
    pub cvvdp: bool,
}

impl MetricToggles {
    pub open spec fn ticked(self, kind: MetricKind) -> bool {
        match kind {
            MetricKind::Psnr => self.psnr,
            MetricKind::Ssim => self.ssim,
            MetricKind::Vmaf => self.vmaf,
            MetricKind::Xpsnr => self.xpsnr,
            MetricKind::Ssim2 => self.ssim2,
            MetricKind::But => self.butteraugli,
            MetricKind::Cvvdp => self.cvvdp,
        }
    }

    pub fn is_ticked(&self, kind: MetricKind) -> (r: bool)
        ensures
            r == self.ticked(kind),
    {
        match kind {
            MetricKind::Psnr => self.psnr,
            MetricKind::Ssim => self.ssim,
            MetricKind::Vmaf => self.vmaf,
            MetricKind::Xpsnr => self.xpsnr,
            MetricKind::Ssim2 => self.ssim2,
            MetricKind::But => self.butteraugli,
            MetricKind::Cvvdp => self.cvvdp,
        }
    }
}

/// The VMAF options, as chosen.
#[derive(Debug)]
pub struct VmafOpts {
    pub model: String,
    pub phone: bool,
    pub scale: bool,
    pub pooling: String,
    pub subsample: String,
    pub threads: String,
    /// The models that there are.
    pub models: Vec<String>,
}

pub struct VmafOptsView {
    pub model: Seq<char>,
    pub phone: bool,
    pub scale: bool,
    pub pooling: Seq<char>,
    pub subsample: Seq<char>,
    pub threads: Seq<char>,
    pub models: Seq<Seq<char>>,
}

impl View for VmafOpts {
    type V = VmafOptsView;

    open spec fn view(&self) -> VmafOptsView {
        VmafOptsView {
            model: self.model@,
            phone: self.phone,
            scale: self.scale,
            pooling: self.pooling@,
            subsample: self.subsample@,
            threads: self.threads@,
            models: texts(self.models@),
        }
    }
}

/// At least 1.
pub open spec fn at_least_one(n: nat) -> nat {
    if n < 1 {
        1
    } else {
        n
    }
}

/// The settings that the options come to; `system` threads where none are
/// given.
pub open spec fn vmaf_settings(o: VmafOptsView, system: u32) -> VmafView {
    VmafView {
        model: o.model,
        phone: o.phone,
        scale: o.scale,
        pooling: if o.pooling == "Harmonic Mean"@ {
            Pooling::HarmonicMean
        } else {
            Pooling::Mean
        },
        subsample: match parse_nat(o.subsample, u32::MAX as nat) {
            Some(n) => at_least_one(n) as u32,
            None => 1,
        },
        n_threads: match parse_nat(o.threads, u32::MAX as nat) {
            Some(n) => at_least_one(n) as u32,
            None => system,
        },
    }
}

impl VmafOpts {
    /// The settings that the options come to. An unreadable subsample is 1, an
    /// unreadable number of threads follows the system.
    pub fn current_vmaf_cfg(&self, system_threads: u32) -> (r: VmafCfg)
        ensures
            r@ == vmaf_settings(self@, system_threads),
    {
        let subsample: u32 = match parse_u32(self.subsample.as_str()) {
            Some(n) => if n < 1 {
                1
            } else {
                n
            },
            None => 1,
        };
        let n_threads: u32 = match parse_u32(self.threads.as_str()) {
            Some(n) => if n < 1 {
                1
            } else {
                n
            },
            None => system_threads,
        };
        VmafCfg {
            model: self.model.clone(),
            phone: self.phone,
            scale: self.scale,
            pooling: if same(self.pooling.as_str(), "Harmonic Mean") {
                Pooling::HarmonicMean
            } else {
                Pooling::Mean
            },
            subsample,
            n_threads,
        }
    }
}

/// How results are computed and shown.
#[derive(Debug)]
pub struct ViewOpts {
    pub scale_method: ScaleMethod,
    /// The input framerate option, as offered.
    pub fps_mode: String,
    /// The statistic that cells show, as offered.
    pub cell_stat: String,
    /// Decimals in cells.
    pub cell_precision: u8,
    pub plot_size: PlotSize,
    pub plot_at_start: bool,
}

pub struct ViewOptsView {
    pub scale_method: ScaleMethod,
    pub fps_mode: Seq<char>,
    pub cell_stat: Seq<char>,
    pub cell_precision: u8,
    pub plot_size: PlotSize,
    pub plot_at_start: bool,
}

impl View for ViewOpts {
    type V = ViewOptsView;

    open spec fn view(&self) -> ViewOptsView {
        ViewOptsView {
            scale_method: self.scale_method,
            fps_mode: self.fps_mode@,
            cell_stat: self.cell_stat@,
            cell_precision: self.cell_precision,
            plot_size: self.plot_size,
            plot_at_start: self.plot_at_start,
        }
    }
}

/// What is saved, and where.
#[derive(Debug)]
pub struct ExportOpts {
    pub csv_export: bool,
    pub csv_dir: String,
    pub results_autosave: bool,
    pub results_path: String,
    pub badframes_count: String,
    pub badframes_export_dir: String,
}

pub struct ExportView {
    pub csv_export: bool,
    pub csv_dir: Seq<char>,
    pub results_autosave: bool,
    pub results_path: Seq<char>,
    pub badframes_count: Seq<char>,
    pub badframes_export_dir: Seq<char>,
}

impl View for ExportOpts {
    type V = ExportView;

    open spec fn view(&self) -> ExportView {
        ExportView {
            csv_export: self.csv_export,
            csv_dir: self.csv_dir@,
            results_autosave: self.results_autosave,
            results_path: self.results_path@,
            badframes_count: self.badframes_count@,
            badframes_export_dir: self.badframes_export_dir@,
        }
    }
}

/// All settings.
#[derive(Debug)]
pub struct Config {
    pub reference: ReferenceInputs,
    pub metrics: MetricToggles,
    pub vmaf: VmafOpts,
    pub view: ViewOpts,
    pub export: ExportOpts,
}

pub struct ConfigView {
    pub reference: ReferenceView,
    pub metrics: MetricToggles,
    pub vmaf: VmafOptsView,
    pub view: ViewOptsView,
    pub export: ExportView,
}

impl View for Config {
    type V = ConfigView;

    open spec fn view(&self) -> ConfigView {
        ConfigView {
            reference: self.reference@,
            metrics: self.metrics,
            vmaf: self.vmaf@,
            view: self.view@,
            export: self.export@,
        }
    }
}

/// The options that menus offer; the first of each is the default.
#[derive(Debug)]
pub struct Menus {
    pub fps_modes: Vec<String>,
    pub cell_stats: Vec<String>,
    pub pixfmts: Vec<String>,
}

pub struct MenusView {
    pub fps_modes: Seq<Seq<char>>,
    pub cell_stats: Seq<Seq<char>>,
    pub pixfmts: Seq<Seq<char>>,
}

impl View for Menus {
    type V = MenusView;

    open spec fn view(&self) -> MenusView {
        MenusView {
            fps_modes: texts(self.fps_modes@),
            cell_stats: texts(self.cell_stats@),
            pixfmts: texts(self.pixfmts@),
        }
    }
}

pub open spec fn first_or_empty(v: Seq<Seq<char>>) -> Seq<char> {
    if v.len() > 0 {
        v[0]
    } else {
        Seq::empty()
    }
}

fn first_of(v: &Vec<String>) -> (r: String)
    ensures
        r@ == first_or_empty(texts(v@)),
{
    assert(texts(v@).len() == v@.len());
    if v.len() > 0 {
        assert(texts(v@)[0] == v@[0]@);
        v[0].clone()
    } else {
        String::new()
    }
}

/// The settings of a first start.
pub open spec fn default_config(models: Seq<Seq<char>>, menus: MenusView) -> ConfigView {
    ConfigView {
        reference: ReferenceView {
            path: Seq::empty(),
            duration: Seq::empty(),
            skip: Seq::empty(),
            pixfmt: first_or_empty(menus.pixfmts),
        },
        metrics: MetricToggles {
            psnr: false,
            ssim: false,
            vmaf: true,
            xpsnr: false,
            ssim2: false,
            butteraugli: false,
            cvvdp: false,
        },
        vmaf: VmafOptsView {
            model: "vmaf_v0.6.1.json"@,
            phone: false,
            scale: false,
            pooling: "Mean"@,
            subsample: "1"@,
            threads: "auto"@,
            models,
        },
        view: ViewOptsView {
            scale_method: ScaleMethod::Bicubic,
            fps_mode: first_or_empty(menus.fps_modes),
            cell_stat: first_or_empty(menus.cell_stats),
            cell_precision: 4,
            plot_size: PlotSize::S3200,
            plot_at_start: false,
        },
        export: ExportView {
            csv_export: false,
            csv_dir: Seq::empty(),
            results_autosave: false,
            results_path: Seq::empty(),
            badframes_count: "5"@,
            badframes_export_dir: Seq::empty(),
        },
    }
}

impl Config {
    /// The settings of a first start, given the models that there are.
    pub fn new(models: Vec<String>, menus: &Menus) -> (r: Config)
        ensures
            r@ == default_config(texts(models@), menus@),
    {
        Config {
            reference: ReferenceInputs {
                path: String::new(),
                duration: String::new(),
                skip: String::new(),
                pixfmt: first_of(&menus.pixfmts),
            },
            metrics: MetricToggles {
                psnr: false,
                ssim: false,
                vmaf: true,
                xpsnr: false,
                ssim2: false,
                butteraugli: false,
                cvvdp: false,
            },
            vmaf: VmafOpts {
                model: "vmaf_v0.6.1.json".to_owned(),
                phone: false,
                scale: false,
                pooling: "Mean".to_owned(),
                subsample: "1".to_owned(),
                threads: "auto".to_owned(),
                models,
            },
            view: ViewOpts {
                scale_method: ScaleMethod::Bicubic,
                fps_mode: first_of(&menus.fps_modes),
                cell_stat: first_of(&menus.cell_stats),
                cell_precision: 4,
                plot_size: PlotSize::S3200,
                plot_at_start: false,
            },
            export: ExportOpts {
                csv_export: false,
                csv_dir: String::new(),
                results_autosave: false,
                results_path: String::new(),
                badframes_count: "5".to_owned(),
                badframes_export_dir: String::new(),
            },
        }
    }

    /// A model of the first numbered generation has no phone transform: the
    /// box is cleared.
    pub fn clear_phone(&mut self, v1: bool)
        ensures
            final(self)@ == (ConfigView {
                vmaf: VmafOptsView { phone: old(self)@.vmaf.phone && !v1, ..old(self)@.vmaf },
                ..old(self)@
            }),
    {
        if v1 {
            self.vmaf.phone = false;
        }
    }
}

// ---- Times ----

/// A time: whole hours and minutes, and the text of the seconds.
#[derive(Debug)]
pub struct TimeParts {
    pub heads: Vec<i64>,
    pub seconds: String,
}

/// What is in a box that holds a time.
#[derive(Debug)]
pub enum TrimBox {
    /// Nothing.
    Unset,
    /// No time.
    Invalid,
    Time(TimeParts),
}

pub enum TrimBoxView {
    Unset,
    Invalid,
    Time { heads: Seq<int>, seconds: Seq<char> },
}

pub open spec fn whole(v: Seq<i64>) -> Seq<int> {
    v.map_values(|n: i64| n as int)
}

impl View for TrimBox {
    type V = TrimBoxView;

    open spec fn view(&self) -> TrimBoxView {
        match self {
            TrimBox::Unset => TrimBoxView::Unset,
            TrimBox::Invalid => TrimBoxView::Invalid,
            TrimBox::Time(t) => TrimBoxView::Time { heads: whole(t.heads@), seconds: t.seconds@ },
        }
    }
}

/// The whole number that a piece before a colon holds.
pub open spec fn head_number(piece: Seq<char>) -> Option<int> {
    parse_int(trim(piece), i64::MIN as int, i64::MAX as int)
}

/// The parts of a time with colons: at most three, none blank, all but the
/// last whole numbers.
pub open spec fn colon_time(pieces: Seq<Seq<char>>) -> Option<(Seq<int>, Seq<char>)> {
    if pieces.len() > 3 || (exists|i: int| 0 <= i < pieces.len() && blank(#[trigger] pieces[i])) {
        None
    } else if forall|i: int|
        0 <= i < pieces.len() - 1 ==> head_number(#[trigger] pieces[i]) is Some && head_number(
            pieces[i],
        )->0 >= 0 {
        Some(
            (
                pieces.drop_last().map_values(|p: Seq<char>| head_number(p)->0),
                trim(pieces.last()),
            ),
        )
    } else {
        None
    }
}

/// What a box holds. A minus sign anywhere makes it no time.
pub open spec fn box_of(raw: Seq<char>) -> TrimBoxView {
    let s = trim(raw);
    if s.len() == 0 {
        TrimBoxView::Unset
    } else if contains(s, "-"@) {
        TrimBoxView::Invalid
    } else if !contains(s, ":"@) {
        TrimBoxView::Time { heads: Seq::empty(), seconds: s }
    } else {
        match colon_time(split_on(s, ':')) {
            Some(t) => TrimBoxView::Time { heads: t.0, seconds: t.1 },
            None => TrimBoxView::Invalid,
        }
    }
}

fn colon_parts(pieces: &Vec<String>) -> (r: Option<TimeParts>)
    requires
        pieces@.len() > 0,
    ensures
        match r {
            Some(t) => colon_time(texts(pieces@)) == Some((whole(t.heads@), t.seconds@)),
            None => colon_time(texts(pieces@)) is None,
        },
{
    let ghost all = texts(pieces@);
    assert(all.len() == pieces@.len());
    if pieces.len() > 3 {
        return None;
    }
    let mut i: usize = 0;
    while i < pieces.len()
        invariant
            i <= pieces@.len(),
            all == texts(pieces@),
            forall|j: int| 0 <= j < i ==> !blank(#[trigger] all[j]),
        decreases pieces.len() - i,
    {
        assert(all[i as int] == pieces@[i as int]@);
        if is_blank(pieces[i].as_str()) {
            assert(blank(all[i as int]));
            return None;
        }
        i += 1;
    }
    let mut heads: Vec<i64> = Vec::new();
    let mut k: usize = 0;
    while k < pieces.len() - 1
        invariant
            k <= pieces@.len() - 1,
            pieces@.len() > 0,
            all == texts(pieces@),
            heads@.len() == k,
            forall|j: int| 0 <= j < k ==> head_number(all[j]) == Some(#[trigger] heads@[j] as int),
            forall|j: int| 0 <= j < k ==> head_number(#[trigger] all[j]) is Some && head_number(all[j])->0 >= 0,
        decreases pieces.len() - k,
    {
        assert(all[k as int] == pieces@[k as int]@);
        match parse_i64(trimmed(pieces[k].as_str()).as_str()) {
            Some(n) => {
                if n < 0 {
                    assert(!(head_number(all[k as int])->0 >= 0));
                    return None;
                }
                heads.push(n);
            },
            None => {
                assert(head_number(all[k as int]) is None);
                return None;
            },
        }
        k += 1;
    }
    assert(whole(heads@) =~= all.drop_last().map_values(|p: Seq<char>| head_number(p)->0));
    assert(all.last() == pieces@.last()@);
    let seconds = trimmed(pieces[pieces.len() - 1].as_str());
    Some(TimeParts { heads, seconds })
}

/// Reads a box that holds a time: plain seconds, or hours, minutes and seconds
/// with colons between them. The seconds are left as text.
pub fn trim_opt(raw: &str) -> (r: TrimBox)
    ensures
        r@ == box_of(raw@),
{
    let s = trimmed(raw);
    if s.as_str().is_empty() {
        return TrimBox::Unset;
    }
    if holds(s.as_str(), "-") {
        return TrimBox::Invalid;
    }
    if !holds(s.as_str(), ":") {
        let r = TrimBox::Time(TimeParts { heads: Vec::new(), seconds: s });
        assert(whole(Seq::<i64>::empty()) =~= Seq::<int>::empty());
        return r;
    }
    let pieces = split_of(s.as_str(), ':');
    proof {
        assert(split_on(s@, ':').len() > 0);
        assert(texts(pieces@).len() == pieces@.len());
    }
    match colon_parts(&pieces) {
        Some(t) => TrimBox::Time(t),
        None => TrimBox::Invalid,
    }
}

/// The options come to settings. A readable subsample or number of threads
/// counts as it is, but as at least one; an unreadable subsample is one, and
/// unreadable threads are those of the system. All else is taken over.
pub proof fn lemma_vmaf_settings(o: VmafOptsView, system: u32)
    ensures
        ({
            let s = vmaf_settings(o, system);
            let step = parse_nat(o.subsample, u32::MAX as nat);
            let threads = parse_nat(o.threads, u32::MAX as nat);
            &&& s.model == o.model && s.phone == o.phone && s.scale == o.scale
            &&& s.pooling is HarmonicMean <==> o.pooling == "Harmonic Mean"@
            &&& s.subsample >= 1
            &&& step is Some && 1 <= step->0 <= u32::MAX ==> s.subsample == step->0
            &&& step is None || step->0 == 0 ==> s.subsample == 1
            &&& threads is Some && 1 <= threads->0 <= u32::MAX ==> s.n_threads == threads->0
            &&& threads is Some && threads->0 == 0 ==> s.n_threads == 1
            &&& threads is None ==> s.n_threads == system
        }),
{
}

/// A blank box sets no time, and a minus sign makes it invalid. Without colons
/// it holds seconds. With colons it holds at most two whole numbers, none below
/// zero, and then seconds; each is what stands between the colons.
pub proof fn lemma_boxes_hold_times(raw: Seq<char>)
    ensures
        ({
            let s = trim(raw);
            let pieces = split_on(s, ':');
            let b = box_of(raw);
            &&& b is Unset <==> s.len() == 0
            &&& s.len() > 0 && contains(s, "-"@) ==> b is Invalid
            &&& s.len() > 0 && !contains(s, "-"@) && !contains(s, ":"@) ==> b is Time
                && b->heads.len() == 0 && b->seconds == s
            &&& b is Time && contains(s, ":"@) ==> {
                &&& pieces.len() <= 3
                &&& b->heads.len() == pieces.len() - 1
                &&& b->seconds == trim(pieces.last())
                &&& forall|i: int|
                    0 <= i < b->heads.len() ==> #[trigger] b->heads[i] >= 0 && Some(b->heads[i])
                        == parse_int(trim(pieces[i]), i64::MIN as int, i64::MAX as int)
                &&& forall|i: int| 0 <= i < pieces.len() ==> !blank(#[trigger] pieces[i])
            }
            &&& s.len() > 0 && contains(s, ":"@) && pieces.len() > 3 ==> b is Invalid
            &&& s.len() > 0 && !contains(s, "-"@) && contains(s, ":"@) && pieces.len() <= 3 && (forall|
                i: int,
            |
                0 <= i < pieces.len() ==> !blank(#[trigger] pieces[i])) && (forall|i: int|
                0 <= i < pieces.len() - 1 ==> parse_int(
                    trim(#[trigger] pieces[i]),
                    i64::MIN as int,
                    i64::MAX as int,
                ) is Some && parse_int(trim(pieces[i]), i64::MIN as int, i64::MAX as int)->0 >= 0)
                ==> b is Time
        }),
{
    let s = trim(raw);
    let pieces = split_on(s, ':');
    if box_of(raw) is Time && contains(s, ":"@) {
        let b = box_of(raw);
        assert forall|i: int| 0 <= i < b->heads.len() implies #[trigger] b->heads[i] >= 0 && Some(
            b->heads[i],
        ) == parse_int(trim(pieces[i]), i64::MIN as int, i64::MAX as int) by {
            assert(pieces.drop_last()[i] == pieces[i]);
            assert(head_number(pieces[i]) is Some);
        }
    }
    if forall|i: int|
        0 <= i < pieces.len() - 1 ==> parse_int(
            trim(#[trigger] pieces[i]),
            i64::MIN as int,
            i64::MAX as int,
        ) is Some && parse_int(trim(pieces[i]), i64::MIN as int, i64::MAX as int)->0 >= 0 {
        assert forall|i: int| 0 <= i < pieces.len() - 1 implies head_number(#[trigger] pieces[i]) is Some
            && head_number(pieces[i])->0 >= 0 by {
            assert(parse_int(trim(pieces[i]), i64::MIN as int, i64::MAX as int) is Some);
        }
    }
}

} // verus!
