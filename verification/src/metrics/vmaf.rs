//! VMAF: models, the libvmaf filtergraph, and the log that libvmaf writes.
use vstd::prelude::*;
use vstd::string::StringExecFns;
use crate::metrics::ffmpeg::{
    can_be_told, fit_segment, fit_text, has_filter, has_scale_to, leg_range,
    lemma_begins_otherwise, lemma_other_segments, lemma_scale_is_no_other, lemma_scale_segment,
    maybe, norm_text, put_maybe, range_segment, range_text, scale_filter, scale_text, scales_to,
    starts_cut, trim_window, window_text, ScaleMethod, Trim, TrimView,
};
use crate::num::{hundred, Num};
use crate::order::{in_order, lemma_in_order, sorted_texts};
use crate::outside::{alphanumeric, is_alphanumeric, lowercase, opt_text, to_lowercase};
use crate::probe::{MediaInfo, MediaView};
use crate::text::{
    chars_of, contains, dec, dec_u64, has, holds, join, joined, put, put_all, same,
    starts_with, texts, trim,
};

verus! {

/// How frame scores are pooled.
#[derive(Debug, Clone, Copy, PartialEq, Eq, Structural)]
pub enum Pooling {
    Mean,
    HarmonicMean,
}

impl Default for Pooling {
    fn default() -> (r: Pooling)
        ensures
            r == Pooling::Mean,
    {
        Pooling::Mean
    }
}

impl Pooling {
    pub open spec fn filter_text(self) -> Seq<char> {
        match self {
            Pooling::Mean => "mean"@,
            Pooling::HarmonicMean => "harmonic_mean"@,
        }
    }

    /// The value of libvmaf's `pool` option.
    pub fn as_filter_str(self) -> (r: &'static str)
        ensures
            r@ == self.filter_text(),
    {
        match self {
            Pooling::Mean => "mean",
            Pooling::HarmonicMean => "harmonic_mean",
        }
    }
}

/// The VMAF settings of a run.
#[derive(Debug)]
pub struct VmafCfg {
    pub model: String,
    pub phone: bool,
    pub scale: bool,
    pub pooling: Pooling,
    pub subsample: u32,
    /// Threads; 0 leaves the option out.
    pub n_threads: u32,
}

pub struct VmafView {
    pub model: Seq<char>,
    pub phone: bool,
    pub scale: bool,
    pub pooling: Pooling,
    pub subsample: u32,
    pub n_threads: u32,
}

impl View for VmafCfg {
    type V = VmafView;

    open spec fn view(&self) -> VmafView {
        VmafView {
            model: self.model@,
            phone: self.phone,
            scale: self.scale,
            pooling: self.pooling,
            subsample: self.subsample,
            n_threads: self.n_threads,
        }
    }
}

impl VmafCfg {
    pub fn copy(&self) -> (r: VmafCfg)
        ensures
            r@ == self@,
    {
        VmafCfg {
            model: self.model.clone(),
            phone: self.phone,
            scale: self.scale,
            pooling: self.pooling,
            subsample: self.subsample,
            n_threads: self.n_threads,
        }
    }

    /// Whether two runs have the same settings.
    pub fn same(&self, other: &VmafCfg) -> (r: bool)
        ensures
            r == (self@ == other@),
    {
        same(self.model.as_str(), other.model.as_str()) && self.phone == other.phone && self.scale
            == other.scale && self.pooling == other.pooling && self.subsample == other.subsample
            && self.n_threads == other.n_threads
    }
}

pub open spec fn opt_vmaf(o: Option<VmafCfg>) -> Option<VmafView> {
    match o {
        Some(c) => Some(c@),
        None => None,
    }
}

pub fn copy_vmaf(o: &Option<VmafCfg>) -> (r: Option<VmafCfg>)
    ensures
        opt_vmaf(r) == opt_vmaf(*o),
{
    match o {
        Some(c) => Some(c.copy()),
        None => None,
    }
}

// ---- Models ----

/// A file name with the extension `json`.
pub open spec fn is_json_name(name: Seq<char>) -> bool {
    name.len() > 5 && name.skip(name.len() - 5) == ".json"@
}

pub fn json_name(name: &str) -> (r: bool)
    ensures
        r == is_json_name(name@),
{
    let v = chars_of(name);
    proof {
        reveal_strlit(".json");
    }
    if v.len() <= 5 {
        return false;
    }
    let n: usize = v.len();
    let tail = crate::text::string_of(&v, n - 5, n);
    assert(tail@ =~= name@.skip(name@.len() - 5));
    same(tail.as_str(), ".json")
}

/// The model names among a directory's file names, or the one line that tells
/// that there are none.
pub open spec fn models_in(files: Seq<Seq<char>>, r: Seq<Seq<char>>) -> bool {
    let names = files.filter(|n: Seq<char>| is_json_name(n));
    if names.len() == 0 {
        r == seq!["No models found"@]
    } else {
        in_order(names, r)
    }
}

/// The models of a directory in dictionary order, given the names of its files.
pub fn list_models(files: &Vec<String>) -> (r: Vec<String>)
    ensures
        models_in(texts(files@), texts(r@)),
{
    let mut names: Vec<String> = Vec::new();
    let ghost keep = |n: Seq<char>| is_json_name(n);
    let mut i: usize = 0;
    assert(texts(names@) =~= texts(files@).take(0).filter(keep)) by {
        reveal(Seq::filter);
    }
    while i < files.len()
        invariant
            i <= files@.len(),
            keep == (|n: Seq<char>| is_json_name(n)),
            texts(names@) == texts(files@).take(i as int).filter(keep),
        decreases files.len() - i,
    {
        assert(texts(files@).take(i + 1).drop_last() =~= texts(files@).take(i as int));
        assert(texts(files@).take(i + 1).last() == files@[i as int]@);
        proof {
            reveal(Seq::filter);
        }
        if json_name(files[i].as_str()) {
            put(&mut names, files[i].as_str());
        }
        i += 1;
    }
    assert(texts(files@).take(i as int) =~= texts(files@));
    if names.len() == 0 {
        let mut r: Vec<String> = Vec::new();
        put(&mut r, "No models found");
        assert(texts(r@) =~= seq!["No models found"@]);
        r
    } else {
        sorted_texts(&names)
    }
}

/// A model file name: letters, numbers, dots, dashes and underscores.
pub open spec fn valid_name(name: Seq<char>) -> bool {
    name.len() > 0 && forall|i: int|
        0 <= i < name.len() ==> alphanumeric(#[trigger] name[i]) || name[i] == '.' || name[i] == '_'
            || name[i] == '-'
}

/// Whether a name can be a model's file name.
pub fn valid_model_name(name: &str) -> (r: bool)
    ensures
        r == valid_name(name@),
{
    let v = chars_of(name);
    if v.len() == 0 {
        return false;
    }
    let mut i: usize = 0;
    while i < v.len()
        invariant
            i <= v@.len(),
            v@ == name@,
            forall|j: int|
                0 <= j < i ==> alphanumeric(#[trigger] name@[j]) || name@[j] == '.' || name@[j] == '_'
                    || name@[j] == '-',
        decreases v.len() - i,
    {
        let c = v[i];
        if !(is_alphanumeric(c) || c == '.' || c == '_' || c == '-') {
            assert(!(alphanumeric(name@[i as int])));
            return false;
        }
        i += 1;
    }
    true
}

/// The model names to try in turn: the chosen one, the standard one, and all
/// that are there.
pub open spec fn candidates(name: Seq<char>, listed: Seq<Seq<char>>) -> Seq<Seq<char>> {
    seq![name, "vmaf_v0.6.1.json"@] + listed
}

pub fn model_candidates(name: &str, listed: &Vec<String>) -> (r: Vec<String>)
    ensures
        texts(r@) == candidates(name@, texts(listed@)),
{
    let mut r: Vec<String> = Vec::new();
    put(&mut r, name);
    put(&mut r, "vmaf_v0.6.1.json");
    put_all(&mut r, listed);
    assert(texts(r@) =~= candidates(name@, texts(listed@)));
    r
}

/// Whether candidate `i` can be used.
pub open spec fn usable(cands: Seq<Seq<char>>, is_file: Seq<bool>, i: int) -> bool {
    valid_name(cands[i]) && is_file[i]
}

/// The `model` option and the model's name, given which candidates are files:
/// the first that can be used, or the built-in model under no name.
pub fn resolve_model(name: &str, listed: &Vec<String>, is_file: &Vec<bool>) -> (r: (String, String))
    requires
        is_file@.len() == listed@.len() + 2,
    ensures
        ({
            let cands = candidates(name@, texts(listed@));
            ||| exists|i: int|
                0 <= i < cands.len() && #[trigger] usable(cands, is_file@, i) && (forall|j: int|
                    0 <= j < i ==> !#[trigger] usable(cands, is_file@, j)) && r.1@ == cands[i] && r.0@
                    == "path=vmaf-models/"@ + cands[i]
            ||| (forall|j: int| 0 <= j < cands.len() ==> !#[trigger] usable(cands, is_file@, j))
                && r.1@ == Seq::<char>::empty() && r.0@ == "version=vmaf_v0.6.1"@
        }),
{
    let cands = model_candidates(name, listed);
    let ghost all = candidates(name@, texts(listed@));
    assert(texts(cands@).len() == cands@.len());
    let mut i: usize = 0;
    while i < cands.len()
        invariant
            i <= cands@.len(),
            cands@.len() == is_file@.len(),
            all.len() == cands@.len(),
            all == candidates(name@, texts(listed@)),
            texts(cands@) == all,
            forall|j: int| 0 <= j < i ==> !#[trigger] usable(all, is_file@, j),
        decreases cands.len() - i,
    {
        assert(all[i as int] == cands@[i as int]@);
        if valid_model_name(cands[i].as_str()) && is_file[i] {
            let mut opt = "path=vmaf-models/".to_owned();
            opt.append(cands[i].as_str());
            assert(usable(all, is_file@, i as int));
            return (opt, cands[i].clone());
        }
        assert(!usable(all, is_file@, i as int));
        i += 1;
    }
    ("version=vmaf_v0.6.1".to_owned(), String::new())
}

/// The resolution that a model is for, from its name in lower case.
pub open spec fn resolution(lower: Seq<char>) -> (u32, u32) {
    if contains(lower, "4k"@) || contains(lower, "2160"@) {
        (3840, 2160)
    } else {
        (1920, 1080)
    }
}

pub fn resolution_for(lower: &str) -> (r: (u32, u32))
    ensures
        r == resolution(lower@),
{
    if holds(lower, "4k") || holds(lower, "2160") {
        (3840, 2160)
    } else {
        (1920, 1080)
    }
}

/// The resolution that a model is for: 2160p where the name says so, else
/// 1080p.
pub fn model_resolution(model_name: &str) -> (r: (u32, u32))
    ensures
        r == resolution(lowercase(model_name@)),
{
    resolution_for(to_lowercase(model_name).as_str())
}

/// Whether a model, named in lower case, is of the first numbered generation.
pub open spec fn v1(lower: Seq<char>) -> bool {
    contains(lower, "v1.0"@)
}

pub fn v1_in(lower: &str) -> (r: bool)
    ensures
        r == v1(lower@),
{
    holds(lower, "v1.0")
}

/// Whether a model is of the first numbered generation, in which the phone
/// model is a file of its own.
pub fn is_v1_model(model_name: &str) -> (r: bool)
    ensures
        r == v1(lowercase(model_name@)),
{
    v1_in(to_lowercase(model_name).as_str())
}

/// The top of a model's scores, from its name in lower case: 110 or 100.
pub open spec fn score_max(lower: Seq<char>) -> Num {
    if contains(lower, "3d0h_2160"@) {
        Num { bits: 0x405b_8000_0000_0000 }
    } else {
        hundred()
    }
}

pub fn score_max_for(lower: &str) -> (r: Num)
    ensures
        r == score_max(lower@),
        r.finite(),
{
    if holds(lower, "3d0h_2160") {
        Num { bits: 0x405b_8000_0000_0000 }
    } else {
        hundred()
    }
}

/// The top of a model's scores.
pub fn model_score_max(model_name: &str) -> (r: Num)
    ensures
        r == score_max(lowercase(model_name@)),
        r.finite(),
{
    score_max_for(to_lowercase(model_name).as_str())
}

// ---- The filtergraph ----

/// The size that a leg is scaled to for a model of size `mw` by `mh`: the
/// given fitting size where the leg's height is more than a tenth of the
/// model's off, none where it is not, and the model's own where the leg's
/// size is unknown.
pub open spec fn leg_size(
    w: Option<i64>,
    h: Option<i64>,
    mw: u32,
    mh: u32,
    fit: (i64, i64),
) -> Option<(int, int)> {
    if w is Some && h is Some && w->0 > 0 && h->0 > 0 {
        let off = if h->0 >= mh {
            h->0 - mh
        } else {
            mh - h->0
        };
        if off * 10 > mh {
            Some((fit.0 as int, fit.1 as int))
        } else {
            None
        }
    } else {
        Some((mw as int, mh as int))
    }
}

/// The size that a leg is scaled to for a model; `fit` is the leg's size
/// fitted into the model's.
pub fn leg_model_scale(w: Option<i64>, h: Option<i64>, mw: u32, mh: u32, fit: (i64, i64)) -> (r: Option<
    (i64, i64),
>)
    ensures
        match r {
            Some(s) => leg_size(w, h, mw, mh, fit) == Some((s.0 as int, s.1 as int)),
            None => leg_size(w, h, mw, mh, fit) is None,
        },
{
    if let Some(x) = w {
        if let Some(y) = h {
            if x > 0 && y > 0 {
                let off: i128 = if y as i128 >= mh as i128 {
                    y as i128 - mh as i128
                } else {
                    mh as i128 - y as i128
                };
                return if off * 10 > mh as i128 {
                    Some(fit)
                } else {
                    None
                };
            }
        }
    }
    Some((mw as i64, mh as i64))
}

/// The pixel-format segments of both legs.
#[derive(Debug)]
pub struct LegFormats {
    pub dist: Option<String>,
    pub reference: Option<String>,
}

/// Everything that a filtergraph is made from, but for the model.
pub struct GraphParts {
    pub reference: MediaView,
    pub dist: MediaView,
    pub trim: TrimView,
    pub scaler: ScaleMethod,
    pub fit_dist: (i64, i64),
    pub fit_ref: (i64, i64),
    pub fmt_dist: Option<Seq<char>>,
    pub fmt_ref: Option<Seq<char>>,
}

pub open spec fn size_text(size: Option<(int, int)>, scaler: ScaleMethod) -> Option<Seq<char>> {
    match size {
        Some(s) => Some(scale_text(s.0, s.1, scaler)),
        None => None,
    }
}

pub open spec fn vmaf_main(p: GraphParts, cfg: VmafView, lower: Seq<char>) -> Seq<Seq<char>> {
    let m = resolution(lower);
    maybe(window_text(p.trim)) + seq![norm_text()] + maybe(
        if cfg.scale {
            size_text(leg_size(p.dist.width, p.dist.height, m.0, m.1, p.fit_dist), p.scaler)
        } else {
            fit_text(p.reference, p.dist, p.scaler)
        },
    ) + maybe(leg_range(p.dist, p.reference)) + maybe(p.fmt_dist)
}

pub open spec fn vmaf_ref(p: GraphParts, cfg: VmafView, lower: Seq<char>) -> Seq<Seq<char>> {
    let m = resolution(lower);
    maybe(window_text(p.trim)) + seq![norm_text()] + maybe(
        if cfg.scale {
            size_text(leg_size(p.reference.width, p.reference.height, m.0, m.1, p.fit_ref), p.scaler)
        } else {
            None
        },
    ) + maybe(leg_range(p.reference, p.dist)) + maybe(p.fmt_ref)
}

/// Why a model cannot be used with the phone transform.
pub open spec fn phone_error(name: Seq<char>, lower: Seq<char>) -> Option<Seq<char>> {
    if v1(lower) {
        Some(
            "Model '"@ + name
                + "' has no Phone transform (v1 uses the separate 5d0h phone file)"@,
        )
    } else if contains(lower, "neg"@) || contains(lower, "4k"@) {
        Some("Model '"@ + name + "' has no Phone transform (use v0.6.1)"@)
    } else {
        None
    }
}

pub open spec fn vmaf_graph(
    p: GraphParts,
    cfg: VmafView,
    model_opt: Seq<char>,
    lower: Seq<char>,
    logname: Seq<char>,
) -> Seq<char> {
    "[0:v]"@ + join(vmaf_main(p, cfg, lower), ","@) + "[main];[1:v]"@ + join(
        vmaf_ref(p, cfg, lower),
        ","@,
    ) + "[ref];[main][ref]libvmaf=eof_action=endall:model="@ + (if cfg.phone {
        model_opt + "\\\\:enable_transform=true"@
    } else {
        model_opt
    }) + ":pool="@ + cfg.pooling.filter_text() + ":n_subsample="@ + dec(
        if cfg.subsample < 1 {
            1
        } else {
            cfg.subsample as nat
        },
    ) + (if cfg.n_threads > 0 {
        ":n_threads="@ + dec(cfg.n_threads as nat)
    } else {
        Seq::empty()
    }) + ":log_path="@ + logname + ":log_fmt=json"@
}

fn sized_segment(size: Option<(i64, i64)>, scaler: ScaleMethod) -> (r: Option<String>)
    ensures
        opt_text(r) == size_text(
            match size {
                Some(s) => Some((s.0 as int, s.1 as int)),
                None => None,
            },
            scaler,
        ),
{
    match size {
        Some(s) => Some(scale_filter(s.0, s.1, scaler)),
        None => None,
    }
}

/// What a filtergraph needs to know of the two inputs.
#[derive(Debug)]
pub struct Inputs<'a> {
    pub reference: &'a MediaInfo,
    pub dist: &'a MediaInfo,
    pub trim: &'a Trim,
    pub scaler: ScaleMethod,
    /// The distorted picture's size, fitted into the model's.
    pub fit_dist: (i64, i64),
    /// The reference picture's size, fitted into the model's.
    pub fit_ref: (i64, i64),
    pub formats: &'a LegFormats,
}

impl<'a> Inputs<'a> {
    pub open spec fn parts(&self) -> GraphParts {
        GraphParts {
            reference: self.reference@,
            dist: self.dist@,
            trim: self.trim@,
            scaler: self.scaler,
            fit_dist: self.fit_dist,
            fit_ref: self.fit_ref,
            fmt_dist: opt_text(self.formats.dist),
            fmt_ref: opt_text(self.formats.reference),
        }
    }
}

/// The libvmaf filtergraph of a model whose name in lower case is given, or
/// why there is none.
pub fn filter_for(
    inputs: &Inputs,
    cfg: &VmafCfg,
    model_opt: &str,
    model_name: &str,
    lower: &str,
    logname: &str,
) -> (r: Result<String, String>)
    ensures
        match r {
            Ok(s) => {
                &&& !(cfg.phone && phone_error(model_name@, lower@) is Some)
                &&& s@ == vmaf_graph(inputs.parts(), cfg@, model_opt@, lower@, logname@)
            },
            Err(e) => cfg.phone && phone_error(model_name@, lower@) == Some(e@),
        },
{
    if cfg.phone {
        if v1_in(lower) {
            let mut e = "Model '".to_owned();
            e.append(model_name);
            e.append("' has no Phone transform (v1 uses the separate 5d0h phone file)");
            return Err(e);
        }
        if holds(lower, "neg") || holds(lower, "4k") {
            let mut e = "Model '".to_owned();
            e.append(model_name);
            e.append("' has no Phone transform (use v0.6.1)");
            return Err(e);
        }
    }
    let (mw, mh): (u32, u32) = resolution_for(lower);
    let mut pre = trim_window(inputs.trim);
    put(&mut pre, "settb=AVTB,setpts=PTS-STARTPTS");
    assert(texts(pre@) =~= maybe(window_text(inputs.trim@)) + seq![norm_text()]);
    let mut leg = trim_window(inputs.trim);
    put(&mut leg, "settb=AVTB,setpts=PTS-STARTPTS");
    assert(texts(leg@) =~= maybe(window_text(inputs.trim@)) + seq![norm_text()]);
    if cfg.scale {
        let d = leg_model_scale(inputs.dist.width, inputs.dist.height, mw, mh, inputs.fit_dist);
        put_maybe(&mut pre, &sized_segment(d, inputs.scaler));
        let f = leg_model_scale(
            inputs.reference.width,
            inputs.reference.height,
            mw,
            mh,
            inputs.fit_ref,
        );
        put_maybe(&mut leg, &sized_segment(f, inputs.scaler));
    } else {
        put_maybe(&mut pre, &fit_segment(inputs.reference, inputs.dist, inputs.scaler));
        put_maybe(&mut leg, &None);
    }
    put_maybe(&mut pre, &range_segment(inputs.dist, inputs.reference));
    put_maybe(&mut leg, &range_segment(inputs.reference, inputs.dist));
    put_maybe(&mut pre, &inputs.formats.dist);
    put_maybe(&mut leg, &inputs.formats.reference);
    assert(texts(pre@) == vmaf_main(inputs.parts(), cfg@, lower@));
    assert(texts(leg@) == vmaf_ref(inputs.parts(), cfg@, lower@));
    let mut model = model_opt.to_owned();
    if cfg.phone {
        model.append("\\\\:enable_transform=true");
    }
    let mut threads = String::new();
    if cfg.n_threads > 0 {
        threads.append(":n_threads=");
        threads.append(dec_u64(cfg.n_threads as u64).as_str());
        assert(threads@ =~= ":n_threads="@ + dec(cfg.n_threads as nat));
    }
    let every: u64 = if cfg.subsample < 1 {
        1
    } else {
        cfg.subsample as u64
    };
    let mut s = "[0:v]".to_owned();
    s.append(joined(&pre, ",").as_str());
    s.append("[main];[1:v]");
    s.append(joined(&leg, ",").as_str());
    s.append("[ref];[main][ref]libvmaf=eof_action=endall:model=");
    s.append(model.as_str());
    s.append(":pool=");
    s.append(cfg.pooling.as_filter_str());
    s.append(":n_subsample=");
    s.append(dec_u64(every).as_str());
    s.append(threads.as_str());
    s.append(":log_path=");
    s.append(logname);
    s.append(":log_fmt=json");
    Ok(s)
}

/// The libvmaf filtergraph, or why there is none: the phone transform exists
/// only for the standard models.
pub fn build_filter(
    inputs: &Inputs,
    cfg: &VmafCfg,
    model_opt: &str,
    model_name: &str,
    logname: &str,
) -> (r: Result<String, String>)
    ensures
        match r {
            Ok(s) => {
                &&& !(cfg.phone && phone_error(model_name@, lowercase(model_name@)) is Some)
                &&& s@ == vmaf_graph(
                    inputs.parts(),
                    cfg@,
                    model_opt@,
                    lowercase(model_name@),
                    logname@,
                )
            },
            Err(e) => cfg.phone && phone_error(model_name@, lowercase(model_name@)) == Some(e@),
        },
{
    let lower = to_lowercase(model_name);
    filter_for(inputs, cfg, model_opt, model_name, lower.as_str(), logname)
}

/// Streams of the model's height, give or take a tenth, are not scaled to the
/// model.
pub proof fn lemma_near_heights_pass(w: i64, h: i64, mw: u32, mh: u32, fit: (i64, i64))
    requires
        w > 0,
        h > 0,
        10 * mh - mh <= 10 * h <= 10 * mh + mh,
    ensures
        leg_size(Some(w), Some(h), mw, mh, fit) is None,
{
}

// ---- What the graph does ----

/// The size of a model's pictures: 4K where its name tells so, else full HD.
pub open spec fn pictures_of(lower: Seq<char>, mw: int, mh: int) -> bool {
    if contains(lower, "4k"@) || contains(lower, "2160"@) {
        mw == 3840 && mh == 2160
    } else {
        mw == 1920 && mh == 1080
    }
}

/// Whether a leg is scaled for a model as its own size asks: to the fitting
/// size where its height is more than a tenth of the model's off, not at all
/// where it is not, and to the model's size where its own is not known.
pub open spec fn scaled_for_model(
    leg: Seq<Seq<char>>,
    own: MediaView,
    fit: (i64, i64),
    mw: int,
    mh: int,
) -> bool {
    if own.width is Some && own.height is Some && own.width->0 > 0 && own.height->0 > 0 {
        let h = own.height->0 as int;
        if 9 * mh <= 10 * h <= 11 * mh {
            !has_filter(leg, "scale="@)
        } else {
            has_scale_to(leg, fit.0 as int, fit.1 as int)
        }
    } else {
        has_scale_to(leg, mw, mh)
    }
}

/// Whether a segment, if there is one, converts a pixel format.
pub open spec fn converts(segment: Option<Seq<char>>) -> bool {
    segment is Some ==> starts_with(segment->0, "format="@)
}

proof fn lemma_leg(
    t: TrimView,
    size: Option<(int, int)>,
    scaler: ScaleMethod,
    tag: Option<Seq<char>>,
    fmt: Option<Seq<char>>,
) -> (leg: Seq<Seq<char>>)
    requires
        converts(fmt),
    ensures
        leg == maybe(window_text(t)) + seq![norm_text()] + maybe(size_text(size, scaler)) + maybe(
            range_text(tag),
        ) + maybe(fmt),
        starts_cut(leg, t),
        size is Some ==> has_scale_to(leg, (size->0).0, (size->0).1),
        has_filter(leg, "scale="@) ==> size is Some,
        can_be_told(tag) ==> leg.contains("setrange=range="@ + tag->0),
        has_filter(leg, "setrange="@) ==> can_be_told(tag),
        fmt is Some ==> leg.last() == fmt->0,
{
    let head = maybe(window_text(t)) + seq![norm_text()];
    let n = head.len() as int;
    let own = range_text(tag);
    let leg = head + maybe(size_text(size, scaler)) + maybe(own) + maybe(fmt);
    let m = n + maybe(size_text(size, scaler)).len();
    let k = m + maybe(own).len();
    lemma_other_segments(t, tag->0, Seq::empty());
    lemma_scale_segment((size->0).0, (size->0).1, scaler);
    lemma_scale_is_no_other((size->0).0, (size->0).1, scaler);
    reveal_strlit("format=");
    reveal_strlit("scale=");
    reveal_strlit("setrange=");
    if fmt is Some {
        assert(fmt->0.subrange(0, 7)[0] == fmt->0[0]);
        lemma_begins_otherwise(fmt->0, "scale="@, 0);
        lemma_begins_otherwise(fmt->0, "setrange="@, 0);
        assert(leg.last() == fmt->0);
    }
    let all = seq![
        "trim=start="@ + t.start + ":end="@ + t.end,
        "trim=start="@ + t.start,
        "settb=AVTB,setpts=PTS-STARTPTS"@,
    ];
    assert forall|i: int| 0 <= i < n implies !starts_with(#[trigger] head[i], "scale="@)
        && !starts_with(head[i], "setrange="@) by {
        assert(head[i] == all[0] || head[i] == all[1] || head[i] == all[2]);
    }
    assert forall|i: int| 0 <= i < n implies leg[i] == head[i] by {}
    if size is Some {
        assert(scales_to(leg[n], (size->0).0, (size->0).1));
    }
    if own is Some {
        assert(leg[m] == "setrange=range="@ + tag->0);
    }
    assert forall|i: int| 0 <= i < leg.len() && #[trigger] starts_with(leg[i], "scale="@) implies size is Some by {
        if i < n {
            assert(leg[i] == head[i]);
        }
    }
    assert forall|i: int| 0 <= i < leg.len() && #[trigger] starts_with(leg[i], "setrange="@) implies own is Some by {
        if i < n {
            assert(leg[i] == head[i]);
        }
    }
    leg
}

proof fn lemma_options(
    p: GraphParts,
    cfg: VmafView,
    model_opt: Seq<char>,
    lower: Seq<char>,
    logname: Seq<char>,
)
    ensures
        vmaf_graph(p, cfg, model_opt, lower, logname) == "[0:v]"@ + join(
            vmaf_main(p, cfg, lower),
            ","@,
        ) + "[main];[1:v]"@ + join(vmaf_ref(p, cfg, lower), ","@)
            + "[ref];[main][ref]libvmaf=eof_action=endall:model="@ + model_opt + (if cfg.phone {
            "\\\\:enable_transform=true"@
        } else {
            ""@
        }) + ":pool="@ + (match cfg.pooling {
            Pooling::Mean => "mean"@,
            Pooling::HarmonicMean => "harmonic_mean"@,
        }) + ":n_subsample="@ + (if cfg.subsample == 0 {
            dec(1)
        } else {
            dec(cfg.subsample as nat)
        }) + (if cfg.n_threads == 0 {
            ""@
        } else {
            ":n_threads="@ + dec(cfg.n_threads as nat)
        }) + ":log_path="@ + logname + ":log_fmt=json"@,
{
    reveal_strlit("");
    assert(""@ =~= Seq::<char>::empty());
    let head = "[0:v]"@ + join(vmaf_main(p, cfg, lower), ","@) + "[main];[1:v]"@ + join(
        vmaf_ref(p, cfg, lower),
        ","@,
    ) + "[ref];[main][ref]libvmaf=eof_action=endall:model="@;
    let phone = "\\\\:enable_transform=true"@;
    if cfg.phone {
        assert(head + (model_opt + phone) =~= head + model_opt + phone);
    } else {
        assert(head + model_opt =~= head + model_opt + ""@);
    }
}

/// The graph of a VMAF run compares like with like. The first input is the
/// distorted file, the second the reference. Both legs cut the same times off
/// and start their clocks at zero. Without scaling to the model, the distorted
/// picture is scaled to the reference's size exactly where that is known and
/// the width or the height is another, and the reference never; with it, each
/// leg is scaled as its own size asks. Where the colour ranges differ, each leg
/// is told its own, and not otherwise. Each leg is converted last. Streams that
/// match in size and range, neither scaled to the model nor converted, have
/// equal legs. The filter has the model, the phone transform exactly where it
/// is chosen, the chosen pooling, every frame or every so many, the threads
/// where a number is set, and the log.
pub proof fn lemma_graph_compares_like_with_like(
    p: GraphParts,
    cfg: VmafView,
    model_opt: Seq<char>,
    lower: Seq<char>,
    logname: Seq<char>,
    mw: int,
    mh: int,
) -> (legs: (Seq<Seq<char>>, Seq<Seq<char>>))
    requires
        converts(p.fmt_dist),
        converts(p.fmt_ref),
        pictures_of(lower, mw, mh),
    ensures
        vmaf_graph(p, cfg, model_opt, lower, logname) == "[0:v]"@ + join(legs.0, ","@)
            + "[main];[1:v]"@ + join(legs.1, ","@)
            + "[ref];[main][ref]libvmaf=eof_action=endall:model="@ + model_opt + (if cfg.phone {
            "\\\\:enable_transform=true"@
        } else {
            ""@
        }) + ":pool="@ + (match cfg.pooling {
            Pooling::Mean => "mean"@,
            Pooling::HarmonicMean => "harmonic_mean"@,
        }) + ":n_subsample="@ + (if cfg.subsample == 0 {
            dec(1)
        } else {
            dec(cfg.subsample as nat)
        }) + (if cfg.n_threads == 0 {
            ""@
        } else {
            ":n_threads="@ + dec(cfg.n_threads as nat)
        }) + ":log_path="@ + logname + ":log_fmt=json"@,
        starts_cut(legs.0, p.trim) && starts_cut(legs.1, p.trim),
        !cfg.scale ==> {
            let sized = p.reference.width is Some && p.reference.height is Some;
            let differs = p.dist.width != p.reference.width || p.dist.height != p.reference.height;
            &&& sized && differs ==> has_scale_to(
                legs.0,
                p.reference.width->0 as int,
                p.reference.height->0 as int,
            )
            &&& has_filter(legs.0, "scale="@) ==> sized && differs
            &&& !has_filter(legs.1, "scale="@)
        },
        cfg.scale ==> scaled_for_model(legs.0, p.dist, p.fit_dist, mw, mh) && scaled_for_model(
            legs.1,
            p.reference,
            p.fit_ref,
            mw,
            mh,
        ),
        ({
            let differs = p.dist.range_tag != p.reference.range_tag;
            &&& differs && can_be_told(p.dist.range_tag) ==> legs.0.contains(
                "setrange=range="@ + p.dist.range_tag->0,
            )
            &&& differs && can_be_told(p.reference.range_tag) ==> legs.1.contains(
                "setrange=range="@ + p.reference.range_tag->0,
            )
            &&& has_filter(legs.0, "setrange="@) ==> differs && can_be_told(p.dist.range_tag)
            &&& has_filter(legs.1, "setrange="@) ==> differs && can_be_told(p.reference.range_tag)
        }),
        p.fmt_dist is Some ==> legs.0.last() == p.fmt_dist->0,
        p.fmt_ref is Some ==> legs.1.last() == p.fmt_ref->0,
        p.dist.width == p.reference.width && p.dist.height == p.reference.height && p.dist.range_tag
            == p.reference.range_tag && !cfg.scale && p.fmt_dist is None && p.fmt_ref is None
            ==> legs.0 == legs.1,
{
    let m = resolution(lower);
    assert(m.0 == mw && m.1 == mh);
    let sized = p.reference.width is Some && p.reference.height is Some;
    let differs = p.dist.width != p.reference.width || p.dist.height != p.reference.height;
    let size = if cfg.scale {
        leg_size(p.dist.width, p.dist.height, m.0, m.1, p.fit_dist)
    } else if sized && differs {
        Some((p.reference.width->0 as int, p.reference.height->0 as int))
    } else {
        None
    };
    let ref_size = if cfg.scale {
        leg_size(p.reference.width, p.reference.height, m.0, m.1, p.fit_ref)
    } else {
        None
    };
    let tagged = p.dist.range_tag != p.reference.range_tag;
    let a = lemma_leg(
        p.trim,
        size,
        p.scaler,
        if tagged {
            p.dist.range_tag
        } else {
            None
        },
        p.fmt_dist,
    );
    let b = lemma_leg(
        p.trim,
        ref_size,
        p.scaler,
        if tagged {
            p.reference.range_tag
        } else {
            None
        },
        p.fmt_ref,
    );
    assert(a =~= vmaf_main(p, cfg, lower));
    assert(b =~= vmaf_ref(p, cfg, lower));
    lemma_options(p, cfg, model_opt, lower, logname);
    (a, b)
}

/// The phone transform is refused exactly for models that have none: those of
/// the first numbered generation, and those whose names tell of 4K or of the
/// variant without enhancement gain.
pub proof fn lemma_phone_models(name: Seq<char>, lower: Seq<char>)
    ensures
        phone_error(name, lower) is None <==> !contains(lower, "v1.0"@) && !contains(lower, "4k"@)
            && !contains(lower, "neg"@),
{
}

/// A model of 110 points is known by its name; all others have 100.
pub proof fn lemma_model_tops(lower: Seq<char>)
    ensures
        contains(lower, "3d0h_2160"@) ==> hundred().less(score_max(lower)),
        !contains(lower, "3d0h_2160"@) ==> score_max(lower) == (Num { bits: 0x4059_0000_0000_0000 }),
{
}

/// Each listed model is a file name that ends in `.json`, and every such name
/// is listed, in dictionary order; where there is none, one line tells so.
pub proof fn lemma_models_are_listed(files: Seq<Seq<char>>, r: Seq<Seq<char>>, name: Seq<char>)
    requires
        models_in(files, r),
        files.len() <= usize::MAX,
    ensures
        ({
            let is_model = files.contains(name) && name.len() > 5 && name[name.len() - 5] == '.'
                && name[name.len() - 4] == 'j' && name[name.len() - 3] == 's' && name[name.len() - 2]
                == 'o' && name[name.len() - 1] == 'n';
            &&& is_model ==> r.contains(name)
            &&& r.contains(name) ==> is_model || r == seq!["No models found"@]
        }),
{
    reveal_strlit(".json");
    let keep = |n: Seq<char>| is_json_name(n);
    let names = files.filter(keep);
    lemma_filtered(files, keep, name);
    let end = name.skip(name.len() - 5);
    if name.len() > 5 {
        assert(end[0] == name[name.len() - 5] && end[1] == name[name.len() - 4] && end[2]
            == name[name.len() - 3] && end[3] == name[name.len() - 2] && end[4] == name[name.len()
            - 1]);
        if name[name.len() - 5] == '.' && name[name.len() - 4] == 'j' && name[name.len() - 3] == 's'
            && name[name.len() - 2] == 'o' && name[name.len() - 1] == 'n' {
            assert(end =~= ".json"@);
        }
    }
    if names.len() > 0 {
        lemma_in_order(names, r);
    }
}

proof fn lemma_filtered(s: Seq<Seq<char>>, keep: spec_fn(Seq<char>) -> bool, x: Seq<char>)
    ensures
        s.filter(keep).len() <= s.len(),
        s.filter(keep).contains(x) <==> s.contains(x) && keep(x),
    decreases s.len(),
{
    reveal(Seq::filter);
    if s.len() > 0 {
        let front = s.drop_last();
        lemma_filtered(front, keep, x);
        let f = front.filter(keep);
        assert(s.contains(x) <==> front.contains(x) || s.last() == x) by {
            if s.contains(x) {
                let i = choose|i: int| 0 <= i < s.len() && s[i] == x;
                if i < front.len() {
                    assert(front[i] == x);
                }
            }
            if front.contains(x) {
                let i = choose|i: int| 0 <= i < front.len() && front[i] == x;
                assert(s[i] == x);
            }
        }
        assert(f.push(s.last()).contains(x) <==> f.contains(x) || s.last() == x) by {
            let g = f.push(s.last());
            assert(g[f.len() as int] == s.last());
            if f.contains(x) {
                let i = choose|i: int| 0 <= i < f.len() && f[i] == x;
                assert(g[i] == x);
            }
        }
    }
}

/// A model's name is valid where it is not empty and all of it are letters,
/// numbers, dots, dashes and underscores; so it names no other folder.
pub proof fn lemma_valid_names(name: Seq<char>, i: int)
    ensures
        name.len() == 0 ==> !valid_name(name),
        0 <= i < name.len() && !alphanumeric(name[i]) && name[i] != '.' && name[i] != '-' && name[i]
            != '_' ==> !valid_name(name),
        name.len() > 0 && (forall|j: int|
            0 <= j < name.len() ==> alphanumeric(#[trigger] name[j]) || name[j] == '.' || name[j] == '-'
                || name[j] == '_') ==> valid_name(name),
{
}

/// The chosen model is tried first, then the standard one, then all others in
/// their order. One is used where its name is valid and it is there.
pub proof fn lemma_models_are_tried_in_order(
    name: Seq<char>,
    listed: Seq<Seq<char>>,
    is_file: Seq<bool>,
    i: int,
)
    ensures
        candidates(name, listed).len() == listed.len() + 2,
        candidates(name, listed)[0] == name,
        candidates(name, listed)[1] == "vmaf_v0.6.1.json"@,
        0 <= i < listed.len() ==> candidates(name, listed)[i + 2] == listed[i],
        usable(candidates(name, listed), is_file, 0) <==> valid_name(name) && is_file[0],
{
}

} // verus!
