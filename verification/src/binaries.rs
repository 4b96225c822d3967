//! The programs that compute metrics: where they are found, and what they say
//! of themselves.
use vstd::prelude::*;
use vstd::string::{StrSliceExecFns, StringExecFns};
use crate::metrics::ffmpeg::MetricKind;
use crate::outside::{
    group, group_of, groups, lowercase, opt_text, regex_captures, regex_first, regex_remove,
    regex_removed, to_lowercase,
};
use crate::text::{
    before_first, dec_i64, dec_int, first_chars, first_chars_of, full_lines, full_lines_of,
    head_before, join, joined, lines, lines_of, put, same, texts, trim, trim_end, trimmed,
    trimmed_end, words, words_of,
};

verus! {

/// What is known of a program.
#[derive(Debug)]
pub struct BinaryInfo {
    pub path: Option<String>,
    pub origin: String,
    pub short: String,
    pub detail: String,
    /// Whether it was found and told its version.
    pub usable: bool,
    /// The metrics whose filters an ffmpeg has.
    pub supported_metrics: Vec<MetricKind>,
    /// The version that an ffmpeg told, as it told it.
    pub ffmpeg_version: Option<String>,
}

pub struct BinaryView {
    pub path: Option<Seq<char>>,
    pub origin: Seq<char>,
    pub short: Seq<char>,
    pub detail: Seq<char>,
    pub usable: bool,
    pub supported_metrics: Seq<MetricKind>,
    pub ffmpeg_version: Option<Seq<char>>,
}

impl View for BinaryInfo {
    type V = BinaryView;

    open spec fn view(&self) -> BinaryView {
        BinaryView {
            path: opt_text(self.path),
            origin: self.origin@,
            short: self.short@,
            detail: self.detail@,
            usable: self.usable,
            supported_metrics: self.supported_metrics@,
            ffmpeg_version: opt_text(self.ffmpeg_version),
        }
    }
}

/// A program of which nothing more is known.
pub open spec fn unusable(
    path: Option<Seq<char>>,
    origin: Seq<char>,
    short: Seq<char>,
    detail: Seq<char>,
) -> BinaryView {
    BinaryView {
        path,
        origin,
        short,
        detail,
        usable: false,
        supported_metrics: Seq::empty(),
        ffmpeg_version: None,
    }
}

fn unusable_info(path: Option<String>, origin: &str, short: &str, detail: &str) -> (r: BinaryInfo)
    ensures
        r@ == unusable(opt_text(path), origin@, short@, detail@),
{
    let r = BinaryInfo {
        path,
        origin: origin.to_owned(),
        short: short.to_owned(),
        detail: detail.to_owned(),
        usable: false,
        supported_metrics: Vec::new(),
        ffmpeg_version: None,
    };
    assert(r.supported_metrics@ =~= Seq::<MetricKind>::empty());
    r
}

impl BinaryInfo {
    /// A program that is still being asked.
    pub fn probing(short: &str) -> (r: BinaryInfo)
        ensures
            r@ == unusable(None, ""@, short@, short@),
    {
        unusable_info(None, "", short, short)
    }
}

// ---- Where a program is ----

/// A program and how it was found.
#[derive(Debug)]
pub struct Found {
    pub path: String,
    pub origin: String,
}

pub struct FoundView {
    pub path: Seq<char>,
    pub origin: Seq<char>,
}

impl View for Found {
    type V = FoundView;

    open spec fn view(&self) -> FoundView {
        FoundView { path: self.path@, origin: self.origin@ }
    }
}

pub open spec fn opt_found(o: Option<Found>) -> Option<FoundView> {
    match o {
        Some(f) => Some(f@),
        None => None,
    }
}

/// The first place that has the program.
pub open spec fn first_found(places: Seq<(Option<Seq<char>>, Seq<char>)>) -> Option<FoundView>
    decreases places.len(),
{
    if places.len() == 0 {
        None
    } else {
        match places[0].0 {
            Some(p) => Some(FoundView { path: p, origin: places[0].1 }),
            None => first_found(places.skip(1)),
        }
    }
}

fn found_at(path: &str, origin: &str) -> (r: Found)
    ensures
        r@ == (FoundView { path: path@, origin: origin@ }),
{
    Found { path: path.to_owned(), origin: origin.to_owned() }
}

/// Which ffmpeg to use, given the ones there are: next to the application, in
/// its `ffmpeg` folder, on the search path.
pub fn find_ffmpeg(near: &Option<String>, in_folder: &Option<String>, on_path: &Option<String>) -> (r:
    Option<Found>)
    ensures
        opt_found(r) == first_found(
            seq![
                (opt_text(*near), "next to app"@),
                (opt_text(*in_folder), "in ffmpeg folder"@),
                (opt_text(*on_path), "in PATH"@),
            ],
        ),
{
    proof {
        reveal_with_fuel(first_found, 4);
    }
    if let Some(p) = near {
        return Some(found_at(p.as_str(), "next to app"));
    }
    if let Some(p) = in_folder {
        return Some(found_at(p.as_str(), "in ffmpeg folder"));
    }
    if let Some(p) = on_path {
        return Some(found_at(p.as_str(), "in PATH"));
    }
    None
}

/// Which FFVship to use, given the ones there are: in the application's
/// `FFVship` folder, next to it, on the search path.
pub fn find_ffvship(in_folder: &Option<String>, near: &Option<String>, on_path: &Option<String>) -> (r:
    Option<Found>)
    ensures
        opt_found(r) == first_found(
            seq![
                (opt_text(*in_folder), "in FFVship folder"@),
                (opt_text(*near), "next to app"@),
                (opt_text(*on_path), "in PATH"@),
            ],
        ),
{
    proof {
        reveal_with_fuel(first_found, 4);
    }
    if let Some(p) = in_folder {
        return Some(found_at(p.as_str(), "in FFVship folder"));
    }
    if let Some(p) = near {
        return Some(found_at(p.as_str(), "next to app"));
    }
    if let Some(p) = on_path {
        return Some(found_at(p.as_str(), "in PATH"));
    }
    None
}

/// Which ffprobe to use, given the ones there are: next to the application, in
/// its `ffmpeg` folder, next to ffmpeg, on the search path.
pub fn find_ffprobe(
    near: &Option<String>,
    in_folder: &Option<String>,
    beside: &Option<String>,
    on_path: &Option<String>,
) -> (r: Option<Found>)
    ensures
        opt_found(r) == first_found(
            seq![
                (opt_text(*near), "next to app"@),
                (opt_text(*in_folder), "in ffmpeg folder"@),
                (opt_text(*beside), "next to ffmpeg"@),
                (opt_text(*on_path), "in PATH"@),
            ],
        ),
{
    proof {
        reveal_with_fuel(first_found, 5);
    }
    if let Some(p) = near {
        return Some(found_at(p.as_str(), "next to app"));
    }
    if let Some(p) = in_folder {
        return Some(found_at(p.as_str(), "in ffmpeg folder"));
    }
    if let Some(p) = beside {
        return Some(found_at(p.as_str(), "next to ffmpeg"));
    }
    if let Some(p) = on_path {
        return Some(found_at(p.as_str(), "in PATH"));
    }
    None
}

/// The path of the ffprobe to use.
pub fn ffprobe_path(found: &Option<Found>) -> (r: Option<String>)
    ensures
        opt_text(r) == match opt_found(*found) {
            Some(f) => Some(f.path),
            None => None,
        },
{
    match found {
        Some(f) => Some(f.path.clone()),
        None => None,
    }
}

// ---- What a program says ----

/// The output of a program that was asked something.
#[derive(Debug)]
pub struct VersionOutput {
    pub stdout: String,
    pub stderr: String,
    pub code: Option<i32>,
}

pub open spec fn exit_text(code: Option<i32>) -> Seq<char> {
    match code {
        Some(c) => dec_int(c as int),
        None => "unknown"@,
    }
}

/// An exit code as shown.
pub fn exit_str(code: Option<i32>) -> (r: String)
    ensures
        r@ == exit_text(code),
{
    match code {
        Some(c) => dec_i64(c as i64),
        None => "unknown".to_owned(),
    }
}

/// The first full line of a text; nothing where there is none.
pub open spec fn first_full(text: Seq<char>) -> Seq<char> {
    if full_lines(text).len() > 0 {
        full_lines(text)[0]
    } else {
        Seq::empty()
    }
}

fn first_full_of(text: &str) -> (r: String)
    ensures
        r@ == first_full(text@),
{
    let ls = full_lines_of(text);
    assert(texts(ls@).len() == ls@.len());
    if ls.len() > 0 {
        assert(texts(ls@)[0] == ls@[0]@);
        ls[0].clone()
    } else {
        String::new()
    }
}

pub open spec fn spoken(stdout: Seq<char>, stderr: Seq<char>) -> Seq<char> {
    if full_lines(stdout).len() > 0 {
        first_full(stdout)
    } else {
        first_full(stderr)
    }
}

/// The first line that holds something, of the output before the errors.
pub fn first_line(stdout: &str, stderr: &str) -> (r: String)
    ensures
        r@ == spoken(stdout@, stderr@),
{
    let ls = full_lines_of(stdout);
    assert(texts(ls@).len() == ls@.len());
    if ls.len() > 0 {
        first_full_of(stdout)
    } else {
        first_full_of(stderr)
    }
}

/// The errors as a hover text shows them, cut where they are long.
pub open spec fn snippet(stderr: Seq<char>) -> Seq<char> {
    let s = trim(stderr);
    if s.len() == 0 {
        Seq::empty()
    } else if s.len() > 300 {
        "\nstderr: "@ + first_chars(s, 300) + "…"@
    } else {
        "\nstderr: "@ + first_chars(s, 300)
    }
}

/// The errors as a hover text shows them.
pub fn stderr_snippet(stderr: &str) -> (r: String)
    ensures
        r@ == snippet(stderr@),
{
    let s = trimmed(stderr);
    if s.as_str().is_empty() {
        return String::new();
    }
    let mut r = "\nstderr: ".to_owned();
    r.append(first_chars_of(s.as_str(), 300).as_str());
    if s.as_str().unicode_len() > 300 {
        r.append("…");
    }
    r
}

/// The metrics that ffmpeg filters compute.
pub open spec fn ffmpeg_metrics() -> Seq<MetricKind> {
    seq![MetricKind::Psnr, MetricKind::Ssim, MetricKind::Vmaf, MetricKind::Xpsnr]
}

/// The metrics that ffmpeg filters compute.
pub fn ffmpeg_kinds() -> (r: Vec<MetricKind>)
    ensures
        r@ == ffmpeg_metrics(),
{
    let r = vec![MetricKind::Psnr, MetricKind::Ssim, MetricKind::Vmaf, MetricKind::Xpsnr];
    assert(r@ =~= ffmpeg_metrics());
    r
}

/// Those are the metrics that FFVship does not compute.
pub proof fn lemma_ffmpeg_metrics(k: MetricKind)
    ensures
        ffmpeg_metrics().contains(k) == !k.by_ffvship(),
{
    assert(ffmpeg_metrics()[0] == MetricKind::Psnr);
    assert(ffmpeg_metrics()[1] == MetricKind::Ssim);
    assert(ffmpeg_metrics()[2] == MetricKind::Vmaf);
    assert(ffmpeg_metrics()[3] == MetricKind::Xpsnr);
}

/// Whether a line lists a filter: it is the line's second word.
pub open spec fn lists_filter(line: Seq<char>, filter: Seq<char>) -> bool {
    words(line).len() > 1 && words(line)[1] == filter
}

/// Whether a listing of filters has one.
pub open spec fn listed(ls: Seq<Seq<char>>, filter: Seq<char>) -> bool {
    exists|i: int| 0 <= i < ls.len() && #[trigger] lists_filter(ls[i], filter)
}

/// The metrics whose filters a listing has.
pub open spec fn metrics_in(text: Seq<char>) -> Seq<MetricKind> {
    ffmpeg_metrics().filter(|k: MetricKind| listed(lines(text), k.filter_text()))
}

fn is_listed(ls: &Vec<String>, filter: &str) -> (r: bool)
    ensures
        r == listed(texts(ls@), filter@),
{
    let mut i: usize = 0;
    while i < ls.len()
        invariant
            i <= ls@.len(),
            forall|j: int| 0 <= j < i ==> !#[trigger] lists_filter(texts(ls@)[j], filter@),
        decreases ls.len() - i,
    {
        let ws = words_of(ls[i].as_str());
        assert(texts(ls@)[i as int] == ls@[i as int]@);
        assert(texts(ws@).len() == ws@.len());
        if ws.len() > 1 {
            assert(texts(ws@)[1] == ws@[1]@);
            if same(ws[1].as_str(), filter) {
                assert(lists_filter(texts(ls@)[i as int], filter@));
                return true;
            }
        }
        i += 1;
    }
    false
}

/// The metrics whose filters a listing has.
pub fn parse_filters_list(text: &str) -> (r: Vec<MetricKind>)
    ensures
        r@ == metrics_in(text@),
{
    let ls = lines_of(text);
    let kinds = ffmpeg_kinds();
    let ghost keep = |k: MetricKind| listed(lines(text@), k.filter_text());
    let mut r: Vec<MetricKind> = Vec::new();
    let mut i: usize = 0;
    assert(r@ =~= kinds@.take(0).filter(keep)) by {
        reveal(Seq::filter);
    }
    while i < kinds.len()
        invariant
            i <= kinds@.len(),
            kinds@ == ffmpeg_metrics(),
            texts(ls@) == lines(text@),
            keep == (|k: MetricKind| listed(lines(text@), k.filter_text())),
            r@ == kinds@.take(i as int).filter(keep),
        decreases kinds.len() - i,
    {
        assert(kinds@.take(i + 1).drop_last() =~= kinds@.take(i as int));
        proof {
            reveal(Seq::filter);
        }
        if is_listed(&ls, kinds[i].filter()) {
            r.push(kinds[i]);
        }
        i += 1;
    }
    assert(kinds@.take(i as int) =~= kinds@);
    r
}

/// The metrics that an ffmpeg supports, given its listing of filters; where it
/// could not be asked, all are taken to be there.
pub fn ffmpeg_supported_filters(listing: &Option<VersionOutput>) -> (r: Vec<MetricKind>)
    ensures
        r@ == match *listing {
            Some(v) => metrics_in(v.stdout@),
            None => ffmpeg_metrics(),
        },
{
    match listing {
        Some(v) => parse_filters_list(v.stdout.as_str()),
        None => ffmpeg_kinds(),
    }
}

pub open spec fn supported_text(kinds: Seq<MetricKind>) -> Seq<char> {
    if kinds.len() == 0 {
        "Supported: none"@
    } else {
        "Supported: "@ + join(kinds.map_values(|k: MetricKind| k.name_text()), ", "@)
    }
}

/// The hover line that lists the supported metrics.
pub fn supported_line(kinds: &Vec<MetricKind>) -> (r: String)
    ensures
        r@ == supported_text(kinds@),
{
    if kinds.len() == 0 {
        return "Supported: none".to_owned();
    }
    let mut names: Vec<String> = Vec::new();
    let ghost f = |k: MetricKind| k.name_text();
    let mut i: usize = 0;
    assert(texts(names@) =~= kinds@.take(0).map_values(f));
    while i < kinds.len()
        invariant
            i <= kinds@.len(),
            f == (|k: MetricKind| k.name_text()),
            texts(names@) == kinds@.take(i as int).map_values(f),
        decreases kinds.len() - i,
    {
        put(&mut names, kinds[i].name());
        i += 1;
        assert(texts(names@) =~= kinds@.take(i as int).map_values(f));
    }
    assert(kinds@.take(i as int) =~= kinds@);
    let mut s = "Supported: ".to_owned();
    s.append(joined(&names, ", ").as_str());
    s
}

/// The label of an ffmpeg, given the match of the version pattern on its first
/// line: the version without the name of a build's site.
pub open spec fn short_label(line: Seq<char>, found: Option<Seq<Option<Seq<char>>>>) -> Seq<char> {
    match group(found, 1) {
        Some(raw) => "FFmpeg: "@ + before_first(raw, "_build-www."@, 0),
        None => line,
    }
}

pub fn short_from(line: &str, found: &Option<Vec<Option<String>>>) -> (r: String)
    ensures
        r@ == short_label(line@, groups(*found)),
{
    match group_of(found, 1) {
        Some(raw) => {
            let mut s = "FFmpeg: ".to_owned();
            s.append(head_before(raw.as_str(), "_build-www.").as_str());
            s
        },
        None => line.to_owned(),
    }
}

/// The label of an ffmpeg, from its first line.
pub fn short_ffmpeg_version(first_line: &str) -> (r: String)
    ensures
        r@ == short_label(
            first_line@,
            regex_first("(?i)ffmpeg version (\\S+)"@, first_line@),
        ),
{
    short_from(first_line, &regex_captures("(?i)ffmpeg version (\\S+)", first_line))
}

/// The version that an ffmpeg tells on its first line, as it tells it.
pub fn ffmpeg_version_token(first_line: &str) -> (r: Option<String>)
    ensures
        opt_text(r) == group(regex_first("(?i)ffmpeg version (\\S+)"@, first_line@), 1),
{
    group_of(&regex_captures("(?i)ffmpeg version (\\S+)", first_line), 1)
}

pub open spec fn at_text(f: FoundView) -> Seq<char> {
    "Found at "@ + f.path + " ("@ + f.origin + ")"@
}

fn at_of(f: &Found) -> (r: String)
    ensures
        r@ == at_text(f@),
{
    let mut s = "Found at ".to_owned();
    s.append(f.path.as_str());
    s.append(" (");
    s.append(f.origin.as_str());
    s.append(")");
    s
}

/// An ffmpeg that told its version: `line` is its first line without the
/// copyright, `found` the match of the version pattern on it.
pub open spec fn ready_ffmpeg(
    f: FoundView,
    line: Seq<char>,
    found: Option<Seq<Option<Seq<char>>>>,
    supported: Seq<MetricKind>,
) -> BinaryView {
    BinaryView {
        path: Some(f.path),
        origin: f.origin,
        short: short_label(line, found),
        detail: line + "\n"@ + f.path + " ("@ + f.origin + ")\n"@ + supported_text(supported),
        usable: true,
        supported_metrics: supported,
        ffmpeg_version: group(found, 1),
    }
}

/// What is known of an ffmpeg that told its version.
pub fn ready_ffmpeg_info(
    f: &Found,
    line: &str,
    found: &Option<Vec<Option<String>>>,
    supported: Vec<MetricKind>,
) -> (r: BinaryInfo)
    ensures
        r@ == ready_ffmpeg(f@, line@, groups(*found), supported@),
{
    let mut detail = line.to_owned();
    detail.append("\n");
    detail.append(f.path.as_str());
    detail.append(" (");
    detail.append(f.origin.as_str());
    detail.append(")\n");
    detail.append(supported_line(&supported).as_str());
    BinaryInfo {
        path: Some(f.path.clone()),
        origin: f.origin.clone(),
        short: short_from(line, found),
        detail,
        usable: true,
        supported_metrics: supported,
        ffmpeg_version: group_of(found, 1),
    }
}

/// The first line of an ffmpeg without the copyright.
pub open spec fn stripped(line: Seq<char>) -> Seq<char> {
    trim_end(regex_removed("(?i)\\s*copyright.*$"@, line))
}

/// What is known of ffmpeg, given where it was found, what it said when asked
/// for its version, and its listing of filters.
pub fn ffmpeg_info(
    found: &Option<Found>,
    version: &Option<VersionOutput>,
    listing: &Option<VersionOutput>,
) -> (r: BinaryInfo)
    ensures
        match (*found, *version) {
            (None, _) => r@ == unusable(
                None,
                ""@,
                "ffmpeg not found in PATH"@,
                "Checked next to app and in PATH, none found"@,
            ),
            (Some(f), None) => r@ == unusable(
                Some(f.path@),
                f.origin@,
                "ffmpeg not found in PATH"@,
                at_text(f@) + " but failed to run"@,
            ),
            (Some(f), Some(v)) => if first_full(v.stdout@).len() == 0 {
                r@ == unusable(
                    Some(f.path@),
                    f.origin@,
                    "ffmpeg not found in PATH"@,
                    at_text(f@) + " but got no version output (exit "@ + exit_text(v.code) + ")"@
                        + snippet(v.stderr@),
                )
            } else {
                let line = stripped(first_full(v.stdout@));
                r@ == ready_ffmpeg(
                    f@,
                    line,
                    regex_first("(?i)ffmpeg version (\\S+)"@, line),
                    match *listing {
                        Some(l) => metrics_in(l.stdout@),
                        None => ffmpeg_metrics(),
                    },
                )
            },
        },
{
    match found {
        None => unusable_info(
            None,
            "",
            "ffmpeg not found in PATH",
            "Checked next to app and in PATH, none found",
        ),
        Some(f) => match version {
            None => {
                let mut d = at_of(f);
                d.append(" but failed to run");
                unusable_info(
                    Some(f.path.clone()),
                    f.origin.as_str(),
                    "ffmpeg not found in PATH",
                    d.as_str(),
                )
            },
            Some(v) => {
                let full = first_full_of(v.stdout.as_str());
                if full.as_str().is_empty() {
                    let mut d = at_of(f);
                    d.append(" but got no version output (exit ");
                    d.append(exit_str(v.code).as_str());
                    d.append(")");
                    d.append(stderr_snippet(v.stderr.as_str()).as_str());
                    return unusable_info(
                        Some(f.path.clone()),
                        f.origin.as_str(),
                        "ffmpeg not found in PATH",
                        d.as_str(),
                    );
                }
                let line = trimmed_end(
                    regex_remove("(?i)\\s*copyright.*$", full.as_str()).as_str(),
                );
                let caps = regex_captures("(?i)ffmpeg version (\\S+)", line.as_str());
                ready_ffmpeg_info(f, line.as_str(), &caps, ffmpeg_supported_filters(listing))
            },
        },
    }
}

// ---- FFVship ----

/// What lines have told of an FFVship: its version and its backend.
#[derive(Debug)]
pub struct Told {
    pub version: Option<String>,
    pub backend: Option<String>,
}

pub struct ToldView {
    pub version: Option<Seq<char>>,
    pub backend: Option<Seq<char>>,
}

impl View for Told {
    type V = ToldView;

    open spec fn view(&self) -> ToldView {
        ToldView { version: opt_text(self.version), backend: opt_text(self.backend) }
    }
}

/// One more line, given the version that it tells and the word, in lower case,
/// that it gives a version of. The first version counts, and the first backend
/// that is not the program itself; a line tells one of the two.
pub open spec fn told_step(
    t: ToldView,
    version: Option<Seq<char>>,
    word: Option<Seq<char>>,
) -> ToldView {
    if t.version is None && version is Some {
        ToldView { version, backend: t.backend }
    } else if t.backend is None && word is Some && word->0 != "libvship"@ && word->0 != "ffvship"@ {
        ToldView { version: t.version, backend: word }
    } else {
        t
    }
}

/// Takes one more line, given what it tells.
pub fn tell(t: Told, version: Option<String>, word: Option<String>) -> (r: Told)
    ensures
        r@ == told_step(t@, opt_text(version), opt_text(word)),
{
    if t.version.is_none() && version.is_some() {
        return Told { version, backend: t.backend };
    }
    if t.backend.is_none() {
        if let Some(w) = &word {
            if !same(w.as_str(), "libvship") && !same(w.as_str(), "ffvship") {
                return Told { version: t.version, backend: word };
            }
        }
    }
    t
}

/// The version that a line tells.
pub open spec fn version_in(s: Seq<char>) -> Option<Seq<char>> {
    group(regex_first("(?i)FFVship\\s+([^\\s\\r\\n]+)"@, s), 1)
}

/// The word, in lower case, that a line gives a version of.
pub open spec fn word_in(s: Seq<char>) -> Option<Seq<char>> {
    match group(regex_first("(?i)^([a-zA-Z0-9]+)\\s+version\\s*$"@, s), 1) {
        Some(w) => Some(lowercase(w)),
        None => None,
    }
}

pub open spec fn told(ls: Seq<Seq<char>>) -> ToldView
    decreases ls.len(),
{
    if ls.len() == 0 {
        ToldView { version: None, backend: None }
    } else {
        let s = trim(ls.last());
        told_step(told(ls.drop_last()), version_in(s), word_in(s))
    }
}

pub open spec fn version_text(t: ToldView) -> Option<Seq<char>> {
    match (t.version, t.backend) {
        (Some(v), Some(b)) => Some(v + "_"@ + b),
        (Some(v), None) => Some(v),
        (None, _) => None,
    }
}

/// The version of an FFVship with its backend.
pub fn version_of(t: Told) -> (r: Option<String>)
    ensures
        opt_text(r) == version_text(t@),
{
    match (t.version, t.backend) {
        (Some(v), Some(b)) => {
            let mut s = v;
            s.append("_");
            s.append(b.as_str());
            Some(s)
        },
        (Some(v), None) => Some(v),
        (None, _) => None,
    }
}

/// The version that an FFVship tells in its output and errors; `None` where it
/// tells none.
pub fn parse_ffvship_version(stdout: &str, stderr: &str) -> (r: Option<String>)
    ensures
        opt_text(r) == version_text(told(lines(stdout@ + "\n"@ + stderr@))),
{
    let mut all = stdout.to_owned();
    all.append("\n");
    all.append(stderr);
    let ls = lines_of(all.as_str());
    let mut t = Told { version: None, backend: None };
    let mut i: usize = 0;
    assert(texts(ls@).take(0) =~= Seq::<Seq<char>>::empty());
    while i < ls.len()
        invariant
            i <= ls@.len(),
            t@ == told(texts(ls@).take(i as int)),
        decreases ls.len() - i,
    {
        assert(texts(ls@).take(i + 1).drop_last() =~= texts(ls@).take(i as int));
        assert(texts(ls@).take(i + 1).last() == ls@[i as int]@);
        let s = trimmed(ls[i].as_str());
        let version = group_of(
            &regex_captures("(?i)FFVship\\s+([^\\s\\r\\n]+)", s.as_str()),
            1,
        );
        let word = match group_of(
            &regex_captures("(?i)^([a-zA-Z0-9]+)\\s+version\\s*$", s.as_str()),
            1,
        ) {
            Some(w) => Some(to_lowercase(w.as_str())),
            None => None,
        };
        t = tell(t, version, word);
        i += 1;
    }
    assert(texts(ls@).take(i as int) =~= texts(ls@));
    version_of(t)
}

/// What is known of an FFVship that answered, given the version it told.
pub open spec fn answered(f: FoundView, v: VersionOutput, version: Option<Seq<char>>) -> BinaryView {
    match version {
        Some(vs) => BinaryView {
            path: Some(f.path),
            origin: f.origin,
            short: "FFVship: "@ + vs,
            detail: spoken(v.stdout@, v.stderr@) + "\n"@ + f.path + " ("@ + f.origin + ")"@,
            usable: true,
            supported_metrics: Seq::empty(),
            ffmpeg_version: None,
        },
        None => unusable(
            Some(f.path),
            f.origin,
            "FFVship: found (version unknown)"@,
            at_text(f) + " but --version gave no version (exit "@ + exit_text(v.code)
                + "); possible GPU-build mismatch (e.g. AMD build on NVIDIA system)"@ + (if spoken(
                v.stdout@,
                v.stderr@,
            ).len() == 0 {
                snippet(v.stderr@)
            } else {
                "\noutput: "@ + spoken(v.stdout@, v.stderr@) + snippet(v.stderr@)
            }),
        ),
    }
}

/// What is known of an FFVship that answered, given the version it told.
pub fn answered_info(f: &Found, v: &VersionOutput, version: &Option<String>) -> (r: BinaryInfo)
    ensures
        r@ == answered(f@, *v, opt_text(*version)),
{
    let said = first_line(v.stdout.as_str(), v.stderr.as_str());
    match version {
        Some(vs) => {
            let mut short = "FFVship: ".to_owned();
            short.append(vs.as_str());
            let mut detail = said;
            detail.append("\n");
            detail.append(f.path.as_str());
            detail.append(" (");
            detail.append(f.origin.as_str());
            detail.append(")");
            let r = BinaryInfo {
                path: Some(f.path.clone()),
                origin: f.origin.clone(),
                short,
                detail,
                usable: true,
                supported_metrics: Vec::new(),
                ffmpeg_version: None,
            };
            assert(r.supported_metrics@ =~= Seq::<MetricKind>::empty());
            r
        },
        None => {
            let mut tail = String::new();
            if !said.as_str().is_empty() {
                tail.append("\noutput: ");
                tail.append(said.as_str());
            }
            tail.append(stderr_snippet(v.stderr.as_str()).as_str());
            assert(tail@ =~= if said@.len() == 0 {
                snippet(v.stderr@)
            } else {
                "\noutput: "@ + said@ + snippet(v.stderr@)
            });
            let mut d = at_of(f);
            d.append(" but --version gave no version (exit ");
            d.append(exit_str(v.code).as_str());
            d.append("); possible GPU-build mismatch (e.g. AMD build on NVIDIA system)");
            d.append(tail.as_str());
            unusable_info(
                Some(f.path.clone()),
                f.origin.as_str(),
                "FFVship: found (version unknown)",
                d.as_str(),
            )
        },
    }
}

/// What is known of FFVship, given where it was found and what it said when
/// asked for its version.
pub fn ffvship_info(found: &Option<Found>, version: &Option<VersionOutput>) -> (r: BinaryInfo)
    ensures
        match (*found, *version) {
            (None, _) => r@ == unusable(
                None,
                ""@,
                "FFVship: not found"@,
                "Checked next to app, FFVship folder, and in PATH, none found"@,
            ),
            (Some(f), None) => r@ == unusable(
                Some(f.path@),
                f.origin@,
                "FFVship: not found"@,
                at_text(f@) + " but failed to run"@,
            ),
            (Some(f), Some(v)) => r@ == answered(
                f@,
                v,
                version_text(told(lines(v.stdout@ + "\n"@ + v.stderr@))),
            ),
        },
{
    match found {
        None => unusable_info(
            None,
            "",
            "FFVship: not found",
            "Checked next to app, FFVship folder, and in PATH, none found",
        ),
        Some(f) => match version {
            None => {
                let mut d = at_of(f);
                d.append(" but failed to run");
                unusable_info(
                    Some(f.path.clone()),
                    f.origin.as_str(),
                    "FFVship: not found",
                    d.as_str(),
                )
            },
            Some(v) => {
                let vs = parse_ffvship_version(v.stdout.as_str(), v.stderr.as_str());
                answered_info(f, v, &vs)
            },
        },
    }
}

/// A program is usable exactly where it told its version, and then it has a
/// path.
pub proof fn lemma_usable_ffvship_has_path(f: FoundView, v: VersionOutput, version: Option<Seq<char>>)
    ensures
        answered(f, v, version).usable == (version is Some),
        answered(f, v, version).path == Some(f.path),
{
}

// ---- What is made of the answers ----

/// A listing supports a metric exactly where ffmpeg computes it at all and some
/// line has its filter for a second word.
pub proof fn lemma_listed_filters_are_supported(text: Seq<char>, k: MetricKind)
    ensures
        ({
            let filter = match k {
                MetricKind::Psnr => "psnr"@,
                MetricKind::Ssim => "ssim"@,
                MetricKind::Vmaf => "libvmaf"@,
                _ => "xpsnr"@,
            };
            metrics_in(text).contains(k) <==> (k is Psnr || k is Ssim || k is Vmaf || k is Xpsnr) && exists|
                i: int,
            |
                0 <= i < lines(text).len() && words(#[trigger] lines(text)[i]).len() > 1 && words(
                    lines(text)[i],
                )[1] == filter
        }),
{
    let keep = |k: MetricKind| listed(lines(text), k.filter_text());
    lemma_ffmpeg_metrics(k);
    lemma_filter_has(ffmpeg_metrics(), keep, k);
    let ls = lines(text);
    let filter = match k {
        MetricKind::Psnr => "psnr"@,
        MetricKind::Ssim => "ssim"@,
        MetricKind::Vmaf => "libvmaf"@,
        _ => "xpsnr"@,
    };
    if exists|i: int| 0 <= i < ls.len() && words(#[trigger] ls[i]).len() > 1 && words(ls[i])[1] == filter {
        let i = choose|i: int|
            0 <= i < ls.len() && words(#[trigger] ls[i]).len() > 1 && words(ls[i])[1] == filter;
        assert(lists_filter(ls[i], filter));
    }
    if listed(ls, filter) {
        let i = choose|i: int| 0 <= i < ls.len() && #[trigger] lists_filter(ls[i], filter);
        assert(words(ls[i]).len() > 1);
    }
}

proof fn lemma_filter_has(s: Seq<MetricKind>, keep: spec_fn(MetricKind) -> bool, k: MetricKind)
    ensures
        s.filter(keep).contains(k) <==> s.contains(k) && keep(k),
    decreases s.len(),
{
    reveal(Seq::filter);
    if s.len() > 0 {
        let head = s.drop_last();
        lemma_filter_has(head, keep, k);
        let f = head.filter(keep);
        let g = s.filter(keep);
        assert(s.contains(k) <==> head.contains(k) || s.last() == k) by {
            if s.contains(k) {
                let i = choose|i: int| 0 <= i < s.len() && s[i] == k;
                if i < head.len() {
                    assert(head[i] == k);
                }
            }
            if head.contains(k) {
                let i = choose|i: int| 0 <= i < head.len() && head[i] == k;
                assert(s[i] == k);
            }
            assert(s[s.len() - 1] == s.last());
        }
        if keep(s.last()) {
            assert(g == f.push(s.last()));
            assert(g[f.len() as int] == s.last());
            if f.contains(k) {
                let i = choose|i: int| 0 <= i < f.len() && f[i] == k;
                assert(g[i] == k);
            }
            if g.contains(k) {
                let i = choose|i: int| 0 <= i < g.len() && g[i] == k;
                if i < f.len() {
                    assert(f[i] == k);
                }
            }
        }
    }
}

/// The program is taken from the first place that has it.
pub proof fn lemma_first_place_wins(places: Seq<(Option<Seq<char>>, Seq<char>)>, i: int)
    requires
        0 <= i < places.len(),
        places[i].0 is Some,
        forall|j: int| 0 <= j < i ==> (#[trigger] places[j]).0 is None,
    ensures
        first_found(places) == Some(FoundView { path: places[i].0->0, origin: places[i].1 }),
    decreases i,
{
    if i > 0 {
        assert(places[0].0 is None);
        assert forall|j: int| 0 <= j < i - 1 implies (#[trigger] places.skip(1)[j]).0 is None by {
            assert(places[j + 1].0 is None);
        }
        lemma_first_place_wins(places.skip(1), i - 1);
    }
}

/// Where no place has the program none is found.
pub proof fn lemma_no_place(places: Seq<(Option<Seq<char>>, Seq<char>)>)
    requires
        forall|j: int| 0 <= j < places.len() ==> (#[trigger] places[j]).0 is None,
    ensures
        first_found(places) is None,
    decreases places.len(),
{
    if places.len() > 0 {
        assert(places[0].0 is None);
        assert forall|j: int| 0 <= j < places.skip(1).len() implies (#[trigger] places.skip(1)[j]).0 is None by {
            assert(places[j + 1].0 is None);
        }
        lemma_no_place(places.skip(1));
    }
}

/// One more line never changes what was told before: the first version counts,
/// and the first backend that is not the program itself.
pub proof fn lemma_first_telling_counts(ls: Seq<Seq<char>>, line: Seq<char>)
    ensures
        ({
            let before = told(ls);
            let after = told(ls.push(line));
            let version = version_in(trim(line));
            let word = word_in(trim(line));
            &&& before.version is Some ==> after.version == before.version
            &&& before.backend is Some ==> after.backend == before.backend
            &&& before.version is None ==> after.version == version
            &&& before.backend is None && before.version is Some && word is Some && word->0
                != "libvship"@ && word->0 != "ffvship"@ ==> after.backend == word
            &&& after.backend is Some ==> after.backend->0 != "libvship"@ && after.backend->0
                != "ffvship"@ || after.backend == before.backend
            &&& version is None && word is None ==> after == before
        }),
{
    assert(ls.push(line).drop_last() =~= ls);
}

/// A version is told with its backend where both are known, and alone where
/// that is not; without a version there is none to tell.
pub proof fn lemma_versions_name_backend(t: ToldView)
    ensures
        version_text(t) is Some <==> t.version is Some,
        t.version is Some && t.backend is Some ==> version_text(t) == Some(
            t.version->0 + "_"@ + t.backend->0,
        ),
        t.version is Some && t.backend is None ==> version_text(t) == t.version,
{
}

/// An ffmpeg that told its version is usable, where it was found, with the
/// metrics that it supports; its label is the version without the name of a
/// site, or its first line where no version is read from it.
pub proof fn lemma_ready_ffmpeg_is_usable(
    f: FoundView,
    line: Seq<char>,
    found: Option<Seq<Option<Seq<char>>>>,
    supported: Seq<MetricKind>,
)
    ensures
        ({
            let b = ready_ffmpeg(f, line, found, supported);
            &&& b.usable && b.path == Some(f.path) && b.origin == f.origin
            &&& b.supported_metrics == supported
            &&& b.ffmpeg_version == group(found, 1)
            &&& group(found, 1) is None ==> b.short == line
        }),
{
}

/// The first line that a program says is taken from its output, and from its
/// errors where it says nothing else.
pub proof fn lemma_spoken_line(stdout: Seq<char>, stderr: Seq<char>)
    ensures
        full_lines(stdout).len() > 0 ==> spoken(stdout, stderr) == full_lines(stdout)[0],
        full_lines(stdout).len() == 0 && full_lines(stderr).len() > 0 ==> spoken(stdout, stderr)
            == full_lines(stderr)[0],
        full_lines(stdout).len() == 0 && full_lines(stderr).len() == 0 ==> spoken(stdout, stderr).len() == 0,
{
}

/// The label of an ffmpeg is its version up to the name of a build's site.
pub proof fn lemma_label_leaves_site_out(
    line: Seq<char>,
    found: Option<Seq<Option<Seq<char>>>>,
    raw: Seq<char>,
    i: int,
)
    requires
        group(found, 1) == Some(raw),
        0 <= i <= raw.len(),
        crate::text::occurs_at(raw, "_build-www."@, i),
        forall|j: int| 0 <= j < i ==> !crate::text::occurs_at(raw, "_build-www."@, j),
    ensures
        short_label(line, found) == "FFmpeg: "@ + raw.take(i),
{
    crate::text::lemma_before_first(raw, "_build-www."@, i, 0);
}

/// The supported metrics are told by their names, and that there are none where
/// there are none.
pub proof fn lemma_supported_are_told(kinds: Seq<MetricKind>)
    ensures
        kinds.len() == 0 ==> supported_text(kinds) == "Supported: none"@,
        kinds.len() == 1 ==> supported_text(kinds) == "Supported: "@ + kinds[0].name_text(),
        kinds.len() == 2 ==> supported_text(kinds) == "Supported: "@ + (kinds[0].name_text() + ", "@
            + kinds[1].name_text()),
{
    let names = kinds.map_values(|k: MetricKind| k.name_text());
    if kinds.len() == 2 {
        reveal_with_fuel(join, 3);
        assert(names.drop_last()[0] == kinds[0].name_text());
    }
}

} // verus!
