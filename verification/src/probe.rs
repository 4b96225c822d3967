//! What ffprobe says of a media file, and how it is shown.
use vstd::prelude::*;
use vstd::string::StringExecFns;
use crate::num::{is_nonzero, nonzero, Num};
use crate::outside::{
    group, group_of, groups, lowercase, opt_text, regex_captures, regex_first, to_lowercase,
    to_uppercase, uppercase,
};
use crate::text::{
    chars_of, contains, dec_i64, dec_int, find_last, holds, is_blank, join, joined, last_at,
    lemma_prefix_len_is, other_than, parse_i64, parse_int, prefix_len, put, same, string_of, texts,
    trim, trim_end, trimmed, trimmed_end, words, words_of,
};

verus! {

/// A number together with its printed form.
#[derive(Debug)]
pub struct Figure {
    pub value: Num,
    pub text: String,
}

pub struct FigureView {
    pub value: Num,
    pub text: Seq<char>,
}

impl View for Figure {
    type V = FigureView;

    open spec fn view(&self) -> FigureView {
        FigureView { value: self.value, text: self.text@ }
    }
}

pub open spec fn opt_figure(o: Option<Figure>) -> Option<FigureView> {
    match o {
        Some(f) => Some(f@),
        None => None,
    }
}

impl Figure {
    pub fn copy(&self) -> (r: Figure)
        ensures
            r@ == self@,
    {
        Figure { value: self.value, text: self.text.clone() }
    }
}

pub fn copy_figure(o: &Option<Figure>) -> (r: Option<Figure>)
    ensures
        opt_figure(r) == opt_figure(*o),
{
    match o {
        Some(f) => Some(f.copy()),
        None => None,
    }
}

pub fn copy_text(o: &Option<String>) -> (r: Option<String>)
    ensures
        opt_text(r) == opt_text(*o),
{
    match o {
        Some(s) => Some(s.clone()),
        None => None,
    }
}

/// Whether two optional texts are equal.
pub fn same_text(a: &Option<String>, b: &Option<String>) -> (r: bool)
    ensures
        r == (opt_text(*a) == opt_text(*b)),
{
    match (a, b) {
        (Some(x), Some(y)) => crate::text::same(x.as_str(), y.as_str()),
        (None, None) => true,
        _ => false,
    }
}

pub fn same_i64(a: Option<i64>, b: Option<i64>) -> (r: bool)
    ensures
        r == (a == b),
{
    match (a, b) {
        (Some(x), Some(y)) => x == y,
        (None, None) => true,
        _ => false,
    }
}

/// What is known of a media file's video stream.
#[derive(Debug)]
pub struct MediaInfo {
    pub width: Option<i64>,
    pub height: Option<i64>,
    /// Frames per second.
    pub fps: Option<Figure>,
    pub pix_fmt: Option<String>,
    pub range_tag: Option<String>,
    pub bitrate_kbps: Option<i64>,
    pub is_container_rate: bool,
    /// Length in seconds.
    pub duration: Option<Figure>,
    pub total_frames: Option<i64>,
    pub encoder: Option<String>,
    pub interlaced: bool,
}

pub struct MediaView {
    pub width: Option<i64>,
    pub height: Option<i64>,
    pub fps: Option<FigureView>,
    pub pix_fmt: Option<Seq<char>>,
    pub range_tag: Option<Seq<char>>,
    pub bitrate_kbps: Option<i64>,
    pub is_container_rate: bool,
    pub duration: Option<FigureView>,
    pub total_frames: Option<i64>,
    pub encoder: Option<Seq<char>>,
    pub interlaced: bool,
}

impl View for MediaInfo {
    type V = MediaView;

    open spec fn view(&self) -> MediaView {
        MediaView {
            width: self.width,
            height: self.height,
            fps: opt_figure(self.fps),
            pix_fmt: opt_text(self.pix_fmt),
            range_tag: opt_text(self.range_tag),
            bitrate_kbps: self.bitrate_kbps,
            is_container_rate: self.is_container_rate,
            duration: opt_figure(self.duration),
            total_frames: self.total_frames,
            encoder: opt_text(self.encoder),
            interlaced: self.interlaced,
        }
    }
}

/// Nothing known.
pub open spec fn unknown_media() -> MediaView {
    MediaView {
        width: None,
        height: None,
        fps: None,
        pix_fmt: None,
        range_tag: None,
        bitrate_kbps: None,
        is_container_rate: false,
        duration: None,
        total_frames: None,
        encoder: None,
        interlaced: false,
    }
}

impl Default for MediaInfo {
    fn default() -> (r: MediaInfo)
        ensures
            r@ == unknown_media(),
    {
        MediaInfo {
            width: None,
            height: None,
            fps: None,
            pix_fmt: None,
            range_tag: None,
            bitrate_kbps: None,
            is_container_rate: false,
            duration: None,
            total_frames: None,
            encoder: None,
            interlaced: false,
        }
    }
}

impl MediaInfo {
    pub fn copy(&self) -> (r: MediaInfo)
        ensures
            r@ == self@,
    {
        MediaInfo {
            width: self.width,
            height: self.height,
            fps: copy_figure(&self.fps),
            pix_fmt: copy_text(&self.pix_fmt),
            range_tag: copy_text(&self.range_tag),
            bitrate_kbps: self.bitrate_kbps,
            is_container_rate: self.is_container_rate,
            duration: copy_figure(&self.duration),
            total_frames: self.total_frames,
            encoder: copy_text(&self.encoder),
            interlaced: self.interlaced,
        }
    }
}

pub open spec fn opt_media(o: Option<MediaInfo>) -> Option<MediaView> {
    match o {
        Some(m) => Some(m@),
        None => None,
    }
}

// ---- Reading a probe ----

/// A stream as ffprobe lists it, its figures as texts.
#[derive(Debug)]
pub struct Stream {
    pub codec_type: Option<String>,
    pub codec_name: Option<String>,
    pub codec_tag_string: Option<String>,
    pub width: Option<i64>,
    pub height: Option<i64>,
    pub avg_frame_rate: Option<String>,
    pub r_frame_rate: Option<String>,
    pub pix_fmt: Option<String>,
    pub color_range: Option<String>,
    pub bit_rate: Option<String>,
    pub duration: Option<String>,
    pub nb_frames: Option<String>,
    pub field_order: Option<String>,
    /// The `encoder` tag, where it is a text.
    pub encoder_tag: Option<String>,
}

/// A container as ffprobe lists it.
#[derive(Debug)]
pub struct Format {
    pub bit_rate: Option<String>,
    pub duration: Option<String>,
}

/// A bit rate, with its whole part.
#[derive(Debug, Clone, Copy)]
pub struct BitRate {
    pub value: Num,
    pub whole: i64,
}

/// What the texts of a stream and its container read as.
#[derive(Debug)]
pub struct Readings {
    pub avg_rate: Option<Figure>,
    pub r_rate: Option<Figure>,
    pub stream_bits: Option<BitRate>,
    pub format_bits: Option<BitRate>,
    pub stream_length: Option<Figure>,
    pub format_length: Option<Figure>,
}

/// A figure above zero.
pub open spec fn above_zero(o: Option<FigureView>) -> bool {
    o is Some && o->0.value.positive()
}

/// The frame rate: the first of the average and the base rate above zero.
pub open spec fn picked_rate(r: Readings) -> Option<FigureView> {
    if above_zero(opt_figure(r.avg_rate)) {
        opt_figure(r.avg_rate)
    } else if above_zero(opt_figure(r.r_rate)) {
        opt_figure(r.r_rate)
    } else {
        None
    }
}

fn is_above_zero(o: &Option<Figure>) -> (r: bool)
    ensures
        r == above_zero(opt_figure(*o)),
{
    match o {
        Some(f) => f.value.is_positive(),
        None => false,
    }
}

/// The frame rate of a stream.
pub fn pick_rate(r: &Readings) -> (f: Option<Figure>)
    ensures
        opt_figure(f) == picked_rate(*r),
{
    if is_above_zero(&r.avg_rate) {
        copy_figure(&r.avg_rate)
    } else if is_above_zero(&r.r_rate) {
        copy_figure(&r.r_rate)
    } else {
        None
    }
}

/// The length: the container's, else the stream's.
pub open spec fn picked_length(r: Readings) -> Option<FigureView> {
    if r.format_length is Some {
        opt_figure(r.format_length)
    } else {
        opt_figure(r.stream_length)
    }
}

/// The length of a stream.
pub fn pick_length(r: &Readings) -> (f: Option<Figure>)
    ensures
        opt_figure(f) == picked_length(*r),
{
    if r.format_length.is_some() {
        copy_figure(&r.format_length)
    } else {
        copy_figure(&r.stream_length)
    }
}

/// The colour range that a stream's tag means, from the tag in lower case.
pub open spec fn range_of(lower: Seq<char>) -> Option<Seq<char>> {
    if lower == "tv"@ || lower == "mpeg"@ {
        Some("tv"@)
    } else if lower == "pc"@ || lower == "jpeg"@ {
        Some("pc"@)
    } else if lower == ""@ || lower == "unknown"@ || lower == "n/a"@ || lower == "unspecified"@ || lower
        == "none"@ {
        None
    } else {
        Some(lower)
    }
}

/// The colour range that a tag means, from the tag in lower case.
pub fn range_for(lower: &str) -> (r: Option<String>)
    ensures
        opt_text(r) == range_of(lower@),
{
    if same(lower, "tv") || same(lower, "mpeg") {
        Some("tv".to_owned())
    } else if same(lower, "pc") || same(lower, "jpeg") {
        Some("pc".to_owned())
    } else if same(lower, "") || same(lower, "unknown") || same(lower, "n/a") || same(
        lower,
        "unspecified",
    ) || same(lower, "none") {
        None
    } else {
        Some(lower.to_owned())
    }
}

/// A pixel format that carries its range in brackets, split in two.
pub open spec fn pix_pair(found: Option<Seq<Option<Seq<char>>>>) -> Option<(Seq<char>, Seq<char>)> {
    match (group(found, 1), group(found, 2)) {
        (Some(name), Some(inner)) => Some((name, inner)),
        _ => None,
    }
}

/// The range in the brackets of a pixel format, in lower case; another than
/// the two known ones leaves the stream's own.
pub open spec fn inner_range(lower: Seq<char>, own: Option<Seq<char>>) -> Option<Seq<char>> {
    if contains(lower, "tv"@) {
        Some("tv"@)
    } else if contains(lower, "pc"@) {
        Some("pc"@)
    } else {
        own
    }
}

/// Pixel format and colour range of a stream, given what the pattern finds in
/// the pixel format and the tags in lower case.
pub open spec fn pixels_of(
    pix: Option<Seq<char>>,
    color_lower: Option<Seq<char>>,
    found: Option<Seq<Option<Seq<char>>>>,
    inner_lower: Seq<char>,
) -> (Option<Seq<char>>, Option<Seq<char>>) {
    let own = match color_lower {
        Some(c) => range_of(c),
        None => None,
    };
    let bracketed = pix is Some && contains(pix->0, "("@) && pix_pair(found) is Some;
    let pair = pix_pair(found)->0;
    let name = if bracketed {
        Some(pair.0)
    } else {
        pix
    };
    let range = if bracketed {
        inner_range(inner_lower, own)
    } else {
        own
    };
    (
        if name is Some && name->0.len() > 0 {
            name
        } else {
            None
        },
        range,
    )
}

/// The pixel format and the colour range of a stream, given what the pattern
/// finds in the pixel format, the range tag in lower case, and the text in the
/// brackets in lower case.
pub fn pixels_from(
    pix: &Option<String>,
    color_lower: &Option<String>,
    found: &Option<Vec<Option<String>>>,
    inner_lower: &str,
) -> (r: (Option<String>, Option<String>))
    ensures
        (opt_text(r.0), opt_text(r.1)) == pixels_of(
            opt_text(*pix),
            opt_text(*color_lower),
            groups(*found),
            inner_lower@,
        ),
{
    let mut range: Option<String> = match color_lower {
        Some(c) => range_for(c.as_str()),
        None => None,
    };
    let mut name = copy_text(pix);
    if let Some(p) = pix {
        if holds(p.as_str(), "(") {
            let one = group_of(found, 1);
            let two = group_of(found, 2);
            if one.is_some() && two.is_some() {
                if holds(inner_lower, "tv") {
                    range = Some("tv".to_owned());
                } else if holds(inner_lower, "pc") {
                    range = Some("pc".to_owned());
                }
                name = one;
            }
        }
    }
    let empty = match &name {
        Some(n) => n.as_str().is_empty(),
        None => true,
    };
    if empty {
        (None, range)
    } else {
        (name, range)
    }
}

/// A text that is there and holds something.
pub open spec fn filled(o: Option<Seq<char>>) -> bool {
    o is Some && o->0.len() > 0
}

fn is_filled(o: &Option<String>) -> (r: bool)
    ensures
        r == filled(opt_text(*o)),
{
    match o {
        Some(s) => !s.as_str().is_empty(),
        None => false,
    }
}

/// The bit rate in thousands: the stream's, else the container's.
pub open spec fn picked_kbps(v: Stream, f: Format, r: Readings) -> Option<int> {
    let bits = if filled(opt_text(v.bit_rate)) {
        r.stream_bits
    } else if filled(opt_text(f.bit_rate)) {
        r.format_bits
    } else {
        None
    };
    if bits is Some && bits->0.value.positive() && bits->0.whole >= 0 {
        Some(bits->0.whole as int / 1000)
    } else {
        None
    }
}

/// The frame count that the stream itself tells.
pub open spec fn told_frames(nb: Option<Seq<char>>) -> Option<int> {
    match nb {
        Some(t) => match parse_int(t, i64::MIN as int, i64::MAX as int) {
            Some(n) => if n > 0 {
                Some(n)
            } else {
                None
            },
            None => None,
        },
        None => None,
    }
}

/// The frame count that a stream itself tells, where it is above zero.
pub fn frames_told(nb: &Option<String>) -> (r: Option<i64>)
    ensures
        match r {
            Some(n) => told_frames(opt_text(*nb)) == Some(n as int),
            None => told_frames(opt_text(*nb)) is None,
        },
{
    match nb {
        Some(t) => match parse_i64(t.as_str()) {
            Some(n) => if n > 0 {
                Some(n)
            } else {
                None
            },
            None => None,
        },
        None => None,
    }
}

/// The frame count: the stream's own, else the estimate from length and rate
/// where both are above zero.
pub open spec fn picked_frames(v: Stream, r: Readings, estimate: i64) -> Option<int> {
    match told_frames(opt_text(v.nb_frames)) {
        Some(n) => Some(n),
        None => if above_zero(picked_length(r)) && above_zero(picked_rate(r)) {
            Some(estimate as int)
        } else {
            None
        },
    }
}

/// The encoder: the codec's name, else its tag, else the last word of the
/// `encoder` tag.
pub open spec fn picked_encoder(v: Stream) -> Option<Seq<char>> {
    if filled(opt_text(v.codec_name)) {
        opt_text(v.codec_name)
    } else if filled(opt_text(v.codec_tag_string)) {
        opt_text(v.codec_tag_string)
    } else if filled(opt_text(v.encoder_tag)) && words(v.encoder_tag->0@).len() > 0 {
        Some(words(v.encoder_tag->0@).last())
    } else {
        None
    }
}

fn pick_encoder(v: &Stream) -> (r: Option<String>)
    ensures
        opt_text(r) == picked_encoder(*v),
{
    if is_filled(&v.codec_name) {
        return copy_text(&v.codec_name);
    }
    if is_filled(&v.codec_tag_string) {
        return copy_text(&v.codec_tag_string);
    }
    match &v.encoder_tag {
        Some(t) => {
            let ws = words_of(t.as_str());
            assert(texts(ws@).len() == ws@.len());
            if !t.as_str().is_empty() && ws.len() > 0 {
                assert(texts(ws@).last() == ws@.last()@);
                return Some(ws[ws.len() - 1].clone());
            }
            None
        },
        None => None,
    }
}

/// Whether a field order is that of interlaced video.
pub open spec fn is_interlaced(order: Option<Seq<char>>) -> bool {
    match order {
        Some(o) => o == "interlaced"@ || o == "tt"@ || o == "bb"@ || o == "tb"@ || o == "bt"@,
        None => false,
    }
}

fn interlaced_in(order: &Option<String>) -> (r: bool)
    ensures
        r == is_interlaced(opt_text(*order)),
{
    match order {
        Some(o) => {
            let o = o.as_str();
            same(o, "interlaced") || same(o, "tt") || same(o, "bb") || same(o, "tb") || same(o, "bt")
        },
        None => false,
    }
}

/// Whether `m` is what is known of a stream, given its pixel format and range.
pub open spec fn media_of(
    v: Stream,
    f: Format,
    r: Readings,
    estimate: i64,
    pixels: (Option<Seq<char>>, Option<Seq<char>>),
    m: MediaView,
) -> bool {
    &&& m.width == v.width
    &&& m.height == v.height
    &&& m.fps == picked_rate(r)
    &&& m.pix_fmt == pixels.0
    &&& m.range_tag == pixels.1
    &&& match m.bitrate_kbps {
        Some(k) => picked_kbps(v, f, r) == Some(k as int),
        None => picked_kbps(v, f, r) is None,
    }
    &&& m.is_container_rate == (v.bit_rate is None && f.bit_rate is Some)
    &&& m.duration == picked_length(r)
    &&& match m.total_frames {
        Some(n) => picked_frames(v, r, estimate) == Some(n as int),
        None => picked_frames(v, r, estimate) is None,
    }
    &&& m.encoder == picked_encoder(v)
    &&& m.interlaced == is_interlaced(opt_text(v.field_order))
}

/// What is known of a stream, given its pixel format and colour range, what
/// its texts read as, and the frames that length and rate come to.
pub fn media_from(
    v: &Stream,
    fmt: &Format,
    read: &Readings,
    estimate: i64,
    pixels: (Option<String>, Option<String>),
) -> (r: MediaInfo)
    ensures
        media_of(*v, *fmt, *read, estimate, (opt_text(pixels.0), opt_text(pixels.1)), r@),
{
    let fps = pick_rate(read);
    let duration = pick_length(read);
    let bits = if is_filled(&v.bit_rate) {
        read.stream_bits
    } else if is_filled(&fmt.bit_rate) {
        read.format_bits
    } else {
        None
    };
    let bitrate_kbps: Option<i64> = match bits {
        Some(b) => if b.value.is_positive() && b.whole >= 0 {
            Some(b.whole / 1000)
        } else {
            None
        },
        None => None,
    };
    let total_frames: Option<i64> = match frames_told(&v.nb_frames) {
        Some(n) => Some(n),
        None => if is_above_zero(&duration) && is_above_zero(&fps) {
            Some(estimate)
        } else {
            None
        },
    };
    MediaInfo {
        width: v.width,
        height: v.height,
        fps,
        pix_fmt: pixels.0,
        range_tag: pixels.1,
        bitrate_kbps,
        is_container_rate: v.bit_rate.is_none() && fmt.bit_rate.is_some(),
        duration,
        total_frames,
        encoder: pick_encoder(v),
        interlaced: interlaced_in(&v.field_order),
    }
}

/// The range tag in lower case, without white space at its ends.
pub open spec fn color_lower(tag: Option<Seq<char>>) -> Option<Seq<char>> {
    match tag {
        Some(t) => Some(lowercase(trim(t))),
        None => None,
    }
}

/// What the pattern of a bracketed range finds in a pixel format.
pub open spec fn pix_found(pix: Option<Seq<char>>) -> Option<Seq<Option<Seq<char>>>> {
    match pix {
        Some(p) => regex_first("([a-zA-Z0-9_]+)\\s*\\(([^)]+)\\)"@, p),
        None => None,
    }
}

/// The text in the brackets, in lower case.
pub open spec fn inner_lower(found: Option<Seq<Option<Seq<char>>>>) -> Seq<char> {
    match group(found, 2) {
        Some(t) => lowercase(t),
        None => Seq::empty(),
    }
}

/// What is known of a stream.
pub fn parse_media(v: &Stream, fmt: &Format, read: &Readings, estimate: i64) -> (r: MediaInfo)
    ensures
        media_of(
            *v,
            *fmt,
            *read,
            estimate,
            pixels_of(
                opt_text(v.pix_fmt),
                color_lower(opt_text(v.color_range)),
                pix_found(opt_text(v.pix_fmt)),
                inner_lower(pix_found(opt_text(v.pix_fmt))),
            ),
            r@,
        ),
{
    let color = match &v.color_range {
        Some(t) => Some(to_lowercase(trimmed(t.as_str()).as_str())),
        None => None,
    };
    let found = match &v.pix_fmt {
        Some(p) => regex_captures("([a-zA-Z0-9_]+)\\s*\\(([^)]+)\\)", p.as_str()),
        None => None,
    };
    let inner = match group_of(&found, 2) {
        Some(t) => to_lowercase(t.as_str()),
        None => String::new(),
    };
    let pixels = pixels_from(&v.pix_fmt, &color, &found, inner.as_str());
    media_from(v, fmt, read, estimate, pixels)
}

/// The stream to look at: the first video stream, else the first.
pub fn pick_stream(types: &Vec<Option<String>>) -> (r: Option<usize>)
    ensures
        match r {
            Some(i) => {
                &&& i < types@.len()
                &&& forall|j: int| 0 <= j < i ==> opt_text(#[trigger] types@[j]) != Some("video"@)
                &&& opt_text(types@[i as int]) == Some("video"@) || (i == 0 && forall|j: int|
                    0 <= j < types@.len() ==> opt_text(#[trigger] types@[j]) != Some("video"@))
            },
            None => types@.len() == 0,
        },
{
    let mut i: usize = 0;
    while i < types.len()
        invariant
            i <= types@.len(),
            forall|j: int| 0 <= j < i ==> opt_text(#[trigger] types@[j]) != Some("video"@),
        decreases types.len() - i,
    {
        if let Some(t) = &types[i] {
            if same(t.as_str(), "video") {
                return Some(i);
            }
        }
        i += 1;
    }
    if types.len() > 0 {
        Some(0)
    } else {
        None
    }
}

/// What is known of a stream, with counted frames in place of an estimate
/// where they were counted.
pub fn with_counted(info: MediaInfo, told: bool, counted: Option<i64>) -> (r: MediaInfo)
    ensures
        r@ == if !told && counted is Some {
            MediaView { total_frames: counted, ..info@ }
        } else {
            info@
        },
{
    let mut info = info;
    if !told && counted.is_some() {
        info.total_frames = counted;
    }
    info
}

/// The frame count in the output of a packet scan.
pub fn packet_count(stdout: &str) -> (r: Option<i64>)
    ensures
        match r {
            Some(n) => told_frames(Some(trim(stdout@))) == Some(n as int),
            None => told_frames(Some(trim(stdout@))) is None,
        },
{
    frames_told(&Some(trimmed(stdout)))
}

pub open spec fn probe_texts(path: Seq<char>) -> Seq<Seq<char>> {
    seq![
        "-v"@,
        "quiet"@,
        "-probesize"@,
        "50M"@,
        "-print_format"@,
        "json"@,
        "-show_format"@,
        "-show_streams"@,
        path,
    ]
}

/// The ffprobe arguments that list a file's streams.
pub fn probe_args(path: &str) -> (r: Vec<String>)
    ensures
        texts(r@) == probe_texts(path@),
{
    let mut r: Vec<String> = Vec::new();
    put(&mut r, "-v");
    put(&mut r, "quiet");
    put(&mut r, "-probesize");
    put(&mut r, "50M");
    put(&mut r, "-print_format");
    put(&mut r, "json");
    put(&mut r, "-show_format");
    put(&mut r, "-show_streams");
    put(&mut r, path);
    assert(texts(r@) =~= probe_texts(path@));
    r
}

pub open spec fn count_texts(path: Seq<char>) -> Seq<Seq<char>> {
    seq![
        "-v"@,
        "error"@,
        "-probesize"@,
        "50M"@,
        "-select_streams"@,
        "v:0"@,
        "-count_packets"@,
        "-show_entries"@,
        "stream=nb_read_packets"@,
        "-of"@,
        "default=noprint_wrappers=1:nokey=1"@,
        path,
    ]
}

/// The ffprobe arguments that count a file's packets.
pub fn count_args(path: &str) -> (r: Vec<String>)
    ensures
        texts(r@) == count_texts(path@),
{
    let mut r: Vec<String> = Vec::new();
    put(&mut r, "-v");
    put(&mut r, "error");
    put(&mut r, "-probesize");
    put(&mut r, "50M");
    put(&mut r, "-select_streams");
    put(&mut r, "v:0");
    put(&mut r, "-count_packets");
    put(&mut r, "-show_entries");
    put(&mut r, "stream=nb_read_packets");
    put(&mut r, "-of");
    put(&mut r, "default=noprint_wrappers=1:nokey=1");
    put(&mut r, path);
    assert(texts(r@) =~= count_texts(path@));
    r
}

/// Whether a path can be probed: it is not blank and names a file.
pub fn path_usable(path: &str, is_file: bool) -> (r: bool)
    ensures
        r == (!crate::text::blank(path@) && is_file),
{
    !is_blank(path) && is_file
}

// ---- Texts ----

pub open spec fn unknown() -> Seq<char> {
    "-unknown-"@
}

/// `i` for interlaced video, `p` for progressive.
pub open spec fn field_suffix(m: MediaView) -> Seq<char> {
    if m.interlaced {
        "i"@
    } else {
        "p"@
    }
}

fn suffix_of(m: &MediaInfo) -> (r: &'static str)
    ensures
        r@ == field_suffix(m@),
{
    if m.interlaced {
        "i"
    } else {
        "p"
    }
}

pub open spec fn encoder_text(m: MediaView) -> Seq<char> {
    if filled(m.encoder) {
        m.encoder->0
    } else {
        unknown()
    }
}

fn encoder_of(m: &MediaInfo) -> (r: String)
    ensures
        r@ == encoder_text(m@),
{
    match &m.encoder {
        Some(e) => if e.as_str().is_empty() {
            "-unknown-".to_owned()
        } else {
            e.clone()
        },
        None => "-unknown-".to_owned(),
    }
}

/// A text without a `P` at its end.
pub open spec fn strip_p(s: Seq<char>) -> Seq<char> {
    if s.len() > 0 && s.last() == 'P' {
        s.drop_last()
    } else {
        s
    }
}

fn strip_p_of(s: &str) -> (r: String)
    ensures
        r@ == strip_p(s@),
{
    let v = chars_of(s);
    if v.len() > 0 && v[v.len() - 1] == 'P' {
        let t = string_of(&v, 0, v.len() - 1);
        assert(t@ =~= s@.drop_last());
        t
    } else {
        s.to_owned()
    }
}

/// Encoder, height, pixel format and bit rate; the pixel format is also given
/// in upper case.
pub open spec fn table_text(m: Option<MediaView>, upper: Seq<char>) -> Seq<char> {
    match m {
        None => unknown() + ", "@ + unknown() + ", "@ + unknown() + ", "@ + unknown(),
        Some(m) => encoder_text(m) + ", "@ + (match m.height {
            Some(h) => dec_int(h as int) + field_suffix(m),
            None => unknown(),
        }) + ", "@ + (match m.pix_fmt {
            Some(p) => strip_p(upper),
            None => unknown(),
        }) + ", "@ + (match m.bitrate_kbps {
            Some(k) => dec_int(k as int) + " kb/s"@,
            None => unknown(),
        }),
    }
}

/// The media column's text, given the pixel format in upper case.
pub fn table_text_from(info: &Option<MediaInfo>, upper: &str) -> (r: String)
    ensures
        r@ == table_text(opt_media(*info), upper@),
{
    match info {
        None => {
            let mut s = "-unknown-".to_owned();
            s.append(", ");
            s.append("-unknown-");
            s.append(", ");
            s.append("-unknown-");
            s.append(", ");
            s.append("-unknown-");
            s
        },
        Some(m) => {
            let height = match m.height {
                Some(h) => {
                    let mut t = dec_i64(h);
                    t.append(suffix_of(m));
                    t
                },
                None => "-unknown-".to_owned(),
            };
            let pix = match &m.pix_fmt {
                Some(_p) => strip_p_of(upper),
                None => "-unknown-".to_owned(),
            };
            let rate = match m.bitrate_kbps {
                Some(k) => {
                    let mut t = dec_i64(k);
                    t.append(" kb/s");
                    t
                },
                None => "-unknown-".to_owned(),
            };
            let mut s = encoder_of(m);
            s.append(", ");
            s.append(height.as_str());
            s.append(", ");
            s.append(pix.as_str());
            s.append(", ");
            s.append(rate.as_str());
            s
        },
    }
}

/// A text in upper case; nothing for none.
pub open spec fn upper_or_empty(o: Option<Seq<char>>) -> Seq<char> {
    match o {
        Some(s) => uppercase(s),
        None => Seq::empty(),
    }
}

fn upper_of(o: &Option<String>) -> (r: String)
    ensures
        r@ == upper_or_empty(opt_text(*o)),
{
    match o {
        Some(s) => to_uppercase(s.as_str()),
        None => String::new(),
    }
}

pub open spec fn media_pix(m: Option<MediaView>) -> Option<Seq<char>> {
    match m {
        Some(m) => m.pix_fmt,
        None => None,
    }
}

pub open spec fn media_range(m: Option<MediaView>) -> Option<Seq<char>> {
    match m {
        Some(m) => m.range_tag,
        None => None,
    }
}

/// The media column's text.
pub fn table_media_text(info: &Option<MediaInfo>) -> (r: String)
    ensures
        r@ == table_text(opt_media(*info), upper_or_empty(media_pix(opt_media(*info)))),
{
    let upper = match info {
        Some(m) => upper_of(&m.pix_fmt),
        None => String::new(),
    };
    table_text_from(info, upper.as_str())
}

/// Size and rate of the pictures, as far as they are known.
pub open spec fn picture_head(m: MediaView) -> Seq<char> {
    let size = if m.width is Some && m.height is Some {
        dec_int(m.width->0 as int) + "x"@ + dec_int(m.height->0 as int)
    } else {
        Seq::empty()
    };
    match m.fps {
        Some(f) => (if size.len() > 0 {
            size + "-"@
        } else {
            size
        }) + f.text + field_suffix(m),
        None => size,
    }
}

/// Pixel format and range, as far as they are known.
pub open spec fn picture_pix(m: MediaView) -> Seq<char> {
    match m.pix_fmt {
        Some(p) => if m.range_tag is Some && p.len() > 0 {
            p + " ("@ + m.range_tag->0 + ")"@
        } else {
            p
        },
        None => Seq::empty(),
    }
}

/// The results file's `Frame` column.
pub open spec fn results_text(m: Option<MediaView>) -> Seq<char> {
    match m {
        None => unknown(),
        Some(m) => {
            let head = picture_head(m);
            let pix = picture_pix(m);
            if head.len() > 0 && pix.len() > 0 {
                head + ", "@ + pix
            } else if head.len() > 0 {
                head
            } else if pix.len() > 0 {
                pix
            } else {
                unknown()
            }
        },
    }
}

/// The results file's `Frame` column: size, rate and field order, then pixel
/// format and range; unknown parts are left out.
pub fn results_media_text(info: &Option<MediaInfo>) -> (r: String)
    ensures
        r@ == results_text(opt_media(*info)),
{
    match info {
        None => "-unknown-".to_owned(),
        Some(m) => {
            let mut head = String::new();
            if let Some(w) = m.width {
                if let Some(h) = m.height {
                    head = dec_i64(w);
                    head.append("x");
                    head.append(dec_i64(h).as_str());
                }
            }
            if let Some(f) = &m.fps {
                if !head.as_str().is_empty() {
                    head.append("-");
                }
                head.append(f.text.as_str());
                head.append(suffix_of(m));
            }
            assert(head@ =~= picture_head(m@));
            let mut pix = String::new();
            if let Some(p) = &m.pix_fmt {
                pix = p.clone();
                if let Some(t) = &m.range_tag {
                    if !p.as_str().is_empty() {
                        pix.append(" (");
                        pix.append(t.as_str());
                        pix.append(")");
                    }
                }
            }
            assert(pix@ =~= picture_pix(m@));
            if !head.as_str().is_empty() && !pix.as_str().is_empty() {
                head.append(", ");
                head.append(pix.as_str());
                head
            } else if !head.as_str().is_empty() {
                head
            } else if !pix.as_str().is_empty() {
                pix
            } else {
                "-unknown-".to_owned()
            }
        },
    }
}

/// A text cut to at most `limit` characters and an ellipsis: before the last
/// comma that fits, or else at the last character but one.
pub open spec fn cut_text(text: Seq<char>, limit: nat) -> Seq<char> {
    if text.len() <= limit {
        text
    } else {
        let t = text.take(limit as int);
        match last_at(t, ", "@) {
            Some(i) => t.take(i) + "…"@,
            None => trim_end(
                if limit > 0 {
                    t.take(limit - 1)
                } else {
                    t
                },
            ) + "…"@,
        }
    }
}

/// A text cut to the width of a cell.
pub fn cell_media_text(text: &str, limit: usize) -> (r: String)
    ensures
        r@ == cut_text(text@, limit as nat),
{
    let v = chars_of(text);
    if v.len() <= limit {
        return text.to_owned();
    }
    let t = string_of(&v, 0, limit);
    assert(t@ =~= text@.take(limit as int));
    let tv = chars_of(t.as_str());
    let comma = chars_of(", ");
    match find_last(&tv, &comma) {
        Some(i) => {
            let mut s = string_of(&tv, 0, i);
            assert(s@ =~= t@.take(i as int));
            s.append("…");
            s
        },
        None => {
            let end: usize = if limit > 0 {
                limit - 1
            } else {
                0
            };
            let h = string_of(&tv, 0, end);
            assert(h@ =~= if limit > 0 {
                t@.take(limit - 1)
            } else {
                t@
            });
            let mut s = trimmed_end(h.as_str());
            s.append("…");
            s
        },
    }
}

/// A text is no longer than the limit, which leaves room for the `…` that ends
/// every cut one. A text that fits is not cut.
pub proof fn lemma_cut_text_fits(text: Seq<char>, limit: nat)
    requires
        limit >= 1,
    ensures
        cut_text(text, limit).len() <= limit,
        text.len() <= limit ==> cut_text(text, limit) == text,
        text.len() > limit ==> cut_text(text, limit).last() == '…',
{
    reveal_strlit("…");
    reveal_strlit(", ");
    if text.len() > limit {
        let t = text.take(limit as int);
        crate::text::lemma_trim_end(t.take(limit - 1));
        if crate::text::contains(t, ", "@) {
            lemma_last_exists(t, ", "@, t.len() as int);
        }
    }
}

proof fn lemma_last_exists(h: Seq<char>, n: Seq<char>, k: int)
    requires
        crate::text::contains(h, n),
        0 <= k <= h.len(),
        forall|j: int| k < j ==> !crate::text::occurs_at(h, n, j),
    ensures
        last_at(h, n) is Some,
        0 <= last_at(h, n)->0 <= h.len() - n.len(),
    decreases k,
{
    if crate::text::occurs_at(h, n, k) {
        crate::text::lemma_last_at(h, n, k);
    } else if k > 0 {
        lemma_last_exists(h, n, k - 1);
    } else {
        let i = choose|i: int| crate::text::occurs_at(h, n, i);
        assert(i <= 0);
    }
}

/// The star that marks a container's bit rate.
pub open spec fn rate_star(m: MediaView) -> Seq<char> {
    if m.is_container_rate {
        "*"@
    } else {
        ""@
    }
}

fn star_of(m: &MediaInfo) -> (r: &'static str)
    ensures
        r@ == rate_star(m@),
{
    if m.is_container_rate {
        "*"
    } else {
        ""
    }
}

/// The nine values of the media tooltip; the range is also given in upper case.
pub open spec fn tip_values(m: Option<MediaView>, upper: Seq<char>) -> Seq<Seq<char>> {
    match m {
        None => seq![
            unknown(),
            unknown(),
            unknown(),
            "Progressive"@,
            unknown(),
            unknown(),
            unknown(),
            unknown(),
            unknown(),
        ],
        Some(m) => seq![
            encoder_text(m),
            if m.width is Some && m.height is Some {
                dec_int(m.width->0 as int) + "x"@ + dec_int(m.height->0 as int)
            } else {
                unknown()
            },
            match m.fps {
                Some(f) => f.text + " fps"@,
                None => unknown(),
            },
            if m.interlaced {
                "Interlaced"@
            } else {
                "Progressive"@
            },
            match m.pix_fmt {
                Some(p) => p,
                None => unknown(),
            },
            match m.range_tag {
                Some(t) => upper,
                None => unknown(),
            },
            match m.bitrate_kbps {
                Some(k) => dec_int(k as int) + " kb/s"@ + rate_star(m),
                None => unknown(),
            },
            if above_zero(m.duration) {
                m.duration->0.text
            } else {
                unknown()
            },
            match m.total_frames {
                Some(n) => dec_int(n as int),
                None => unknown(),
            },
        ],
    }
}

pub open spec fn tip_text(v: Seq<Seq<char>>) -> Seq<char> {
    "Encoder: "@ + v[0] + "\nFrame size: "@ + v[1] + "\nFrame Rate: "@ + v[2] + "\nField Type: "@ + v[3]
        + "\nPixel Format: "@ + v[4] + "\nColour Range: "@ + v[5] + "\nBitrate: "@ + v[6]
        + "\nDuration: "@ + v[7] + "\nTotal Frames: "@ + v[8]
}

fn tip_parts(info: &Option<MediaInfo>, upper: &str) -> (r: Vec<String>)
    ensures
        texts(r@) == tip_values(opt_media(*info), upper@),
{
    let mut r: Vec<String> = Vec::new();
    match info {
        None => {
            put(&mut r, "-unknown-");
            put(&mut r, "-unknown-");
            put(&mut r, "-unknown-");
            put(&mut r, "Progressive");
            put(&mut r, "-unknown-");
            put(&mut r, "-unknown-");
            put(&mut r, "-unknown-");
            put(&mut r, "-unknown-");
            put(&mut r, "-unknown-");
        },
        Some(m) => {
            put(&mut r, encoder_of(m).as_str());
            let mut size = "-unknown-".to_owned();
            if let Some(w) = m.width {
                if let Some(h) = m.height {
                    size = dec_i64(w);
                    size.append("x");
                    size.append(dec_i64(h).as_str());
                }
            }
            put(&mut r, size.as_str());
            match &m.fps {
                Some(f) => {
                    let mut t = f.text.clone();
                    t.append(" fps");
                    put(&mut r, t.as_str());
                },
                None => put(&mut r, "-unknown-"),
            }
            if m.interlaced {
                put(&mut r, "Interlaced");
            } else {
                put(&mut r, "Progressive");
            }
            match &m.pix_fmt {
                Some(p) => put(&mut r, p.as_str()),
                None => put(&mut r, "-unknown-"),
            }
            match &m.range_tag {
                Some(_t) => put(&mut r, upper),
                None => put(&mut r, "-unknown-"),
            }
            match m.bitrate_kbps {
                Some(k) => {
                    let mut t = dec_i64(k);
                    t.append(" kb/s");
                    t.append(star_of(m));
                    put(&mut r, t.as_str());
                },
                None => put(&mut r, "-unknown-"),
            }
            let mut length = "-unknown-".to_owned();
            if let Some(d) = &m.duration {
                if d.value.is_positive() {
                    length = d.text.clone();
                }
            }
            put(&mut r, length.as_str());
            match m.total_frames {
                Some(n) => put(&mut r, dec_i64(n).as_str()),
                None => put(&mut r, "-unknown-"),
            }
        },
    }
    assert(texts(r@) =~= tip_values(opt_media(*info), upper@));
    r
}

/// The media tooltip, given the colour range in upper case.
pub fn tooltip_from(info: &Option<MediaInfo>, upper: &str) -> (r: String)
    ensures
        r@ == tip_text(tip_values(opt_media(*info), upper@)),
{
    let v = tip_parts(info, upper);
    assert(texts(v@).len() == 9);
    assert(forall|i: int| 0 <= i < 9 ==> texts(v@)[i] == (#[trigger] v@[i])@);
    let mut s = "Encoder: ".to_owned();
    s.append(v[0].as_str());
    s.append("\nFrame size: ");
    s.append(v[1].as_str());
    s.append("\nFrame Rate: ");
    s.append(v[2].as_str());
    s.append("\nField Type: ");
    s.append(v[3].as_str());
    s.append("\nPixel Format: ");
    s.append(v[4].as_str());
    s.append("\nColour Range: ");
    s.append(v[5].as_str());
    s.append("\nBitrate: ");
    s.append(v[6].as_str());
    s.append("\nDuration: ");
    s.append(v[7].as_str());
    s.append("\nTotal Frames: ");
    s.append(v[8].as_str());
    s
}

/// The nine lines of the media tooltip.
pub fn table_media_tooltip(info: &Option<MediaInfo>) -> (r: String)
    ensures
        r@ == tip_text(
            tip_values(opt_media(*info), upper_or_empty(media_range(opt_media(*info)))),
        ),
{
    let upper = match info {
        Some(m) => upper_of(&m.range_tag),
        None => String::new(),
    };
    tooltip_from(info, upper.as_str())
}

/// The parts of the reference line.
pub open spec fn ref_parts(m: MediaView) -> Seq<Seq<char>> {
    (if filled(m.encoder) {
        seq!["Encoder: "@ + m.encoder->0]
    } else {
        Seq::empty()
    }) + (match (m.width, m.height, m.fps) {
        (Some(w), Some(h), Some(f)) => seq![
            "Frame: "@ + dec_int(w as int) + "x"@ + dec_int(h as int) + "-"@ + f.text + field_suffix(
                m,
            ),
        ],
        (Some(w), Some(h), None) => seq![
            "Frame: "@ + dec_int(w as int) + "x"@ + dec_int(h as int),
        ],
        (_, _, Some(f)) => seq!["Frame: "@ + f.text + field_suffix(m)],
        _ => Seq::empty(),
    }) + (match m.pix_fmt {
        Some(p) => match m.range_tag {
            Some(t) => seq![p + " ("@ + t + ")"@],
            None => seq![p],
        },
        None => Seq::empty(),
    }) + (match m.bitrate_kbps {
        Some(k) => seq!["Bitrate: "@ + dec_int(k as int) + " kb/s"@ + rate_star(m)],
        None => Seq::empty(),
    }) + (if above_zero(m.duration) {
        seq!["Duration: "@ + m.duration->0.text]
    } else {
        Seq::empty()
    }) + (match m.total_frames {
        Some(n) => seq!["Total Frames: "@ + dec_int(n as int)],
        None => Seq::empty(),
    })
}

/// The line under the reference's path.
pub open spec fn ref_text(m: MediaView) -> Seq<char> {
    if ref_parts(m).len() == 0 {
        "—"@
    } else {
        join(ref_parts(m), ", "@)
    }
}

fn put_frame(v: &mut Vec<String>, m: &MediaInfo)
    ensures
        texts(final(v)@) == texts(old(v)@) + match (m@.width, m@.height, m@.fps) {
            (Some(w), Some(h), Some(f)) => seq![
                "Frame: "@ + dec_int(w as int) + "x"@ + dec_int(h as int) + "-"@ + f.text
                    + field_suffix(m@),
            ],
            (Some(w), Some(h), None) => seq![
                "Frame: "@ + dec_int(w as int) + "x"@ + dec_int(h as int),
            ],
            (_, _, Some(f)) => seq!["Frame: "@ + f.text + field_suffix(m@)],
            _ => Seq::empty(),
        },
{
    let mut s = "Frame: ".to_owned();
    let mut some = false;
    if let Some(w) = m.width {
        if let Some(h) = m.height {
            s.append(dec_i64(w).as_str());
            s.append("x");
            s.append(dec_i64(h).as_str());
            some = true;
        }
    }
    if let Some(f) = &m.fps {
        if some {
            s.append("-");
        }
        s.append(f.text.as_str());
        s.append(suffix_of(m));
        some = true;
    }
    if some {
        put(v, s.as_str());
    }
    assert(texts(v@) =~= texts(old(v)@) + match (m@.width, m@.height, m@.fps) {
        (Some(w), Some(h), Some(f)) => seq![
            "Frame: "@ + dec_int(w as int) + "x"@ + dec_int(h as int) + "-"@ + f.text + field_suffix(
                m@,
            ),
        ],
        (Some(w), Some(h), None) => seq!["Frame: "@ + dec_int(w as int) + "x"@ + dec_int(h as int)],
        (_, _, Some(f)) => seq!["Frame: "@ + f.text + field_suffix(m@)],
        _ => Seq::empty(),
    });
}

/// The line under the reference's path: what is known of it.
pub fn reference_line(m: &MediaInfo) -> (r: String)
    ensures
        r@ == ref_text(m@),
{
    let mut v: Vec<String> = Vec::new();
    if let Some(e) = &m.encoder {
        if !e.as_str().is_empty() {
            let mut s = "Encoder: ".to_owned();
            s.append(e.as_str());
            put(&mut v, s.as_str());
        }
    }
    assert(texts(v@) =~= if filled(m@.encoder) {
        seq!["Encoder: "@ + m@.encoder->0]
    } else {
        Seq::empty()
    });
    put_frame(&mut v, m);
    let ghost g1 = texts(v@);
    if let Some(p) = &m.pix_fmt {
        let mut s = p.clone();
        if let Some(t) = &m.range_tag {
            s.append(" (");
            s.append(t.as_str());
            s.append(")");
        }
        put(&mut v, s.as_str());
    }
    assert(texts(v@) =~= g1 + match m@.pix_fmt {
        Some(p) => match m@.range_tag {
            Some(t) => seq![p + " ("@ + t + ")"@],
            None => seq![p],
        },
        None => Seq::empty(),
    });
    let ghost g2 = texts(v@);
    if let Some(k) = m.bitrate_kbps {
        let mut s = "Bitrate: ".to_owned();
        s.append(dec_i64(k).as_str());
        s.append(" kb/s");
        s.append(star_of(m));
        put(&mut v, s.as_str());
    }
    assert(texts(v@) =~= g2 + match m@.bitrate_kbps {
        Some(k) => seq!["Bitrate: "@ + dec_int(k as int) + " kb/s"@ + rate_star(m@)],
        None => Seq::empty(),
    });
    let ghost g3 = texts(v@);
    if let Some(d) = &m.duration {
        if d.value.is_positive() {
            let mut s = "Duration: ".to_owned();
            s.append(d.text.as_str());
            put(&mut v, s.as_str());
        }
    }
    assert(texts(v@) =~= g3 + if above_zero(m@.duration) {
        seq!["Duration: "@ + m@.duration->0.text]
    } else {
        Seq::empty()
    });
    let ghost g4 = texts(v@);
    if let Some(n) = m.total_frames {
        let mut s = "Total Frames: ".to_owned();
        s.append(dec_i64(n).as_str());
        put(&mut v, s.as_str());
    }
    assert(texts(v@) =~= g4 + match m@.total_frames {
        Some(n) => seq!["Total Frames: "@ + dec_int(n as int)],
        None => Seq::empty(),
    });
    assert(texts(v@) == ref_parts(m@));
    assert(texts(v@).len() == v@.len());
    if v.len() == 0 {
        "—".to_owned()
    } else {
        joined(&v, ", ")
    }
}

/// How a probe went.
#[derive(Debug)]
pub enum Probed {
    /// ffprobe could not be started.
    Spawn,
    Timeout,
    /// Its output is not what it should be.
    InvalidJson,
    NoVideo,
    Media(MediaInfo),
}

pub open spec fn probed_media(p: Probed) -> Option<MediaView> {
    match p {
        Probed::Media(m) => Some(m@),
        _ => None,
    }
}

/// The reference line of a path that needs no probe: a blank one, one without
/// a file, or any where there is no ffprobe.
pub open spec fn unprobed_text(blank: bool, is_file: bool, has_ffprobe: bool) -> Option<Seq<char>> {
    if blank {
        Some("Encoder: -unknown-, Frame: -unknown-, Bitrate: -unknown-, Duration: -unknown-"@)
    } else if !is_file {
        Some("File not found"@)
    } else if !has_ffprobe {
        Some("ffprobe not found"@)
    } else {
        None
    }
}

/// The reference line where no probe is needed; `None` where one is.
pub fn unprobed_reference(path: &str, is_file: bool, has_ffprobe: bool) -> (r: Option<String>)
    ensures
        opt_text(r) == unprobed_text(crate::text::blank(path@), is_file, has_ffprobe),
{
    if is_blank(path) {
        Some(
            "Encoder: -unknown-, Frame: -unknown-, Bitrate: -unknown-, Duration: -unknown-".to_owned(),
        )
    } else if !is_file {
        Some("File not found".to_owned())
    } else if !has_ffprobe {
        Some("ffprobe not found".to_owned())
    } else {
        None
    }
}

/// The reference line after a probe.
pub open spec fn probed_text(p: Probed) -> Seq<char> {
    match p {
        Probed::Spawn => "Probe failed: {e}"@,
        Probed::Timeout => "Probe timed out"@,
        Probed::InvalidJson => "Probe failed: invalid output"@,
        Probed::NoVideo => "No video stream"@,
        Probed::Media(m) => ref_text(m@),
    }
}

/// The reference line after a probe, what is known of the reference, and
/// whether the probe timed out.
pub fn reference_media_text(p: Probed) -> (r: (String, Option<MediaInfo>, bool))
    ensures
        r.0@ == probed_text(p),
        opt_media(r.1) == probed_media(p),
        r.2 == (p is Timeout),
{
    match p {
        Probed::Spawn => ("Probe failed: {e}".to_owned(), None, false),
        Probed::Timeout => ("Probe timed out".to_owned(), None, true),
        Probed::InvalidJson => ("Probe failed: invalid output".to_owned(), None, false),
        Probed::NoVideo => ("No video stream".to_owned(), None, false),
        Probed::Media(m) => {
            let s = reference_line(&m);
            (s, Some(m), false)
        },
    }
}

/// The cell text and the tooltip of a queued file, what is known of it, and
/// whether the probe timed out. `None` stands for a file that is not probed.
pub fn probe_table_text(p: Option<Probed>) -> (r: (String, String, Option<MediaInfo>, bool))
    ensures
        ({
            let m = match p {
                Some(x) => probed_media(x),
                None => None,
            };
            &&& r.0@ == cut_text(table_text(m, upper_or_empty(media_pix(m))), 38)
            &&& r.1@ == tip_text(tip_values(m, upper_or_empty(media_range(m))))
            &&& opt_media(r.2) == m
            &&& r.3 == (p is Some && p->0 is Timeout)
        }),
{
    let mut late = false;
    let info = match p {
        Some(Probed::Media(m)) => Some(m),
        Some(Probed::Timeout) => {
            late = true;
            None
        },
        _ => None,
    };
    let full = table_media_text(&info);
    let cell = cell_media_text(full.as_str(), 38);
    let tip = table_media_tooltip(&info);
    (cell, tip, info, late)
}

/// The length to seek a thumbnail by: the reference's, where what is known of
/// the reference belongs to the path and the length is above zero.
pub fn thumb_duration(ref_path: &str, info_path: &str, probed: Option<Num>) -> (r: Option<Num>)
    ensures
        r == if ref_path@.len() > 0 && ref_path@ == info_path@ && probed is Some
            && probed->0.positive() {
            probed
        } else {
            None
        },
{
    if !ref_path.is_empty() && same(ref_path, info_path) {
        if let Some(d) = probed {
            if d.is_positive() {
                return probed;
            }
        }
    }
    None
}

// ---- Frame rates ----

/// A frame rate as ffprobe tells it.
#[derive(Debug)]
pub enum RateText {
    Unknown,
    Number(String),
    /// A numerator and a denominator.
    Ratio(String, String),
}

pub enum RateView {
    Unknown,
    Number(Seq<char>),
    Ratio(Seq<char>, Seq<char>),
}

impl View for RateText {
    type V = RateView;

    open spec fn view(&self) -> RateView {
        match self {
            RateText::Unknown => RateView::Unknown,
            RateText::Number(s) => RateView::Number(s@),
            RateText::Ratio(n, d) => RateView::Ratio(n@, d@),
        }
    }
}

/// What a text says of a frame rate: nothing, a number, or what stands before
/// and after its first stroke.
pub open spec fn rate_said(s: Seq<char>) -> RateView {
    let k = prefix_len(s, other_than('/')) as int;
    if s.len() == 0 || s == "0/0"@ {
        RateView::Unknown
    } else if k < s.len() {
        RateView::Ratio(s.take(k), s.skip(k + 1))
    } else {
        RateView::Number(s)
    }
}

/// Reads the shape of a frame rate.
pub fn rate_of(s: &str) -> (r: RateText)
    ensures
        r@ == rate_said(s@),
{
    let v = chars_of(s);
    if v.len() == 0 || same(s, "0/0") {
        return RateText::Unknown;
    }
    let mut k: usize = 0;
    while k < v.len() && v[k] != '/'
        invariant
            k <= v@.len(),
            forall|j: int| 0 <= j < k ==> #[trigger] v@[j] != '/',
        decreases v.len() - k,
    {
        k += 1;
    }
    proof {
        lemma_prefix_len_is(s@, other_than('/'), k as int);
    }
    if k < v.len() {
        let n = string_of(&v, 0, k);
        let d = string_of(&v, k + 1, v.len());
        assert(n@ =~= s@.take(k as int));
        assert(d@ =~= s@.skip(k + 1));
        RateText::Ratio(n, d)
    } else {
        RateText::Number(s.to_owned())
    }
}

/// The rate that a numerator and a denominator give, where both are numbers
/// and the denominator is not zero; `quotient` is the one by the other.
pub fn ratio_rate(n: Option<Num>, d: Option<Num>, quotient: Num) -> (r: Option<Num>)
    ensures
        r == (if n is Some && nonzero(d) {
            Some(quotient)
        } else {
            None
        }),
{
    if n.is_some() && is_nonzero(d) {
        Some(quotient)
    } else {
        None
    }
}

/// A text without some character at its end.
pub open spec fn without_last(s: Seq<char>, c: char) -> Seq<char>
    decreases s.len(),
{
    if s.len() > 0 && s.last() == c {
        without_last(s.drop_last(), c)
    } else {
        s
    }
}

/// A printed fraction without the zeros that it ends in, nor the point that
/// they leave.
pub fn short_fraction(s: &str) -> (r: String)
    ensures
        r@ == without_last(without_last(s@, '0'), '.'),
{
    let v = chars_of(s);
    let mut end: usize = v.len();
    assert(s@.take(end as int) =~= s@);
    while end > 0 && v[end - 1] == '0'
        invariant
            end <= v@.len(),
            v@ == s@,
            without_last(s@.take(end as int), '0') == without_last(s@, '0'),
        decreases end,
    {
        assert(s@.take(end as int).drop_last() =~= s@.take(end - 1));
        end -= 1;
    }
    assert(s@.take(end as int) == without_last(s@, '0'));
    while end > 0 && v[end - 1] == '.'
        invariant
            end <= v@.len(),
            v@ == s@,
            without_last(s@.take(end as int), '.') == without_last(without_last(s@, '0'), '.'),
        decreases end,
    {
        assert(s@.take(end as int).drop_last() =~= s@.take(end - 1));
        end -= 1;
    }
    let r = string_of(&v, 0, end);
    assert(r@ =~= s@.take(end as int));
    r
}

// ---- What is made of a stream ----

/// Whether a pixel format tells its range in brackets.
pub open spec fn has_brackets(pix: Option<Seq<char>>) -> bool {
    pix is Some && contains(pix->0, "("@)
}

/// Whether a range tag, in whatever case and with whatever white space around
/// it, is one of two.
pub open spec fn tagged(tag: Option<Seq<char>>, a: Seq<char>, b: Seq<char>) -> bool {
    tag is Some && (lowercase(trim(tag->0)) == a || lowercase(trim(tag->0)) == b)
}

/// A stream's own range tag: limited video is known as `tv`, full as `pc`. A
/// tag that says nothing is none, and any other is kept.
pub open spec fn own_range(tag: Option<Seq<char>>, range: Option<Seq<char>>) -> bool {
    &&& tagged(tag, "tv"@, "mpeg"@) ==> range == Some("tv"@)
    &&& tagged(tag, "pc"@, "jpeg"@) ==> range == Some("pc"@)
    &&& tagged(tag, ""@, "unknown"@) || tagged(tag, "n/a"@, "unspecified"@) || tagged(
        tag,
        "none"@,
        "none"@,
    ) || tag is None ==> range is None
    &&& tag is Some && !tagged(tag, "tv"@, "mpeg"@) && !tagged(tag, "pc"@, "jpeg"@) && !tagged(
        tag,
        ""@,
        "unknown"@,
    ) && !tagged(tag, "n/a"@, "unspecified"@) && !tagged(tag, "none"@, "none"@) ==> range == Some(
        lowercase(trim(tag->0)),
    )
}

proof fn lemma_range_words(w: Seq<char>)
    ensures
        "tv"@ != "pc"@,
        "tv"@ != "jpeg"@,
        "mpeg"@ != "pc"@,
        "mpeg"@ != "jpeg"@,
        w == "tv"@ || w == "mpeg"@ || w == "pc"@ || w == "jpeg"@ ==> w != ""@ && w != "unknown"@ && w
            != "n/a"@ && w != "unspecified"@ && w != "none"@,
{
    reveal_strlit("tv");
    reveal_strlit("mpeg");
    reveal_strlit("pc");
    reveal_strlit("jpeg");
    reveal_strlit("");
    reveal_strlit("unknown");
    reveal_strlit("n/a");
    reveal_strlit("unspecified");
    reveal_strlit("none");
    assert("tv"@[0] == 't' && "pc"@[0] == 'p');
    assert("mpeg"@[0] == 'm' && "jpeg"@[0] == 'j');
    assert("none"@[0] == 'n');
    assert(w == "mpeg"@ ==> w[0] == 'm');
    assert(w == "jpeg"@ ==> w[0] == 'j');
    assert(""@.len() == 0 && "unknown"@.len() == 7 && "n/a"@.len() == 3);
    assert("unspecified"@.len() == 11 && "none"@.len() == 4);
    assert("tv"@.len() == 2 && "pc"@.len() == 2 && "mpeg"@.len() == 4 && "jpeg"@.len() == 4);
}

/// A stream whose pixel format has no brackets is known by its own tag, and
/// its pixel format stays as it is.
pub proof fn lemma_range_follows_tag(v: Stream, f: Format, r: Readings, estimate: i64, m: MediaView)
    requires
        media_of(
            v,
            f,
            r,
            estimate,
            pixels_of(
                opt_text(v.pix_fmt),
                color_lower(opt_text(v.color_range)),
                pix_found(opt_text(v.pix_fmt)),
                inner_lower(pix_found(opt_text(v.pix_fmt))),
            ),
            m,
        ),
        !has_brackets(opt_text(v.pix_fmt)),
    ensures
        own_range(opt_text(v.color_range), m.range_tag),
        m.pix_fmt is Some <==> v.pix_fmt is Some && v.pix_fmt->0@.len() > 0,
        m.pix_fmt is Some ==> m.pix_fmt == opt_text(v.pix_fmt),
{
    lemma_range_words(lowercase(trim(v.color_range->0@)));
}

/// A range in the brackets of the pixel format goes before the stream's own
/// tag, and the pixel format is what stands before the brackets.
pub proof fn lemma_range_follows_brackets(
    v: Stream,
    f: Format,
    r: Readings,
    estimate: i64,
    m: MediaView,
    name: Seq<char>,
    inner: Seq<char>,
)
    requires
        media_of(
            v,
            f,
            r,
            estimate,
            pixels_of(
                opt_text(v.pix_fmt),
                color_lower(opt_text(v.color_range)),
                pix_found(opt_text(v.pix_fmt)),
                inner_lower(pix_found(opt_text(v.pix_fmt))),
            ),
            m,
        ),
        has_brackets(opt_text(v.pix_fmt)),
        group(
            regex_first("([a-zA-Z0-9_]+)\\s*\\(([^)]+)\\)"@, v.pix_fmt->0@),
            1,
        ) == Some(name),
        group(
            regex_first("([a-zA-Z0-9_]+)\\s*\\(([^)]+)\\)"@, v.pix_fmt->0@),
            2,
        ) == Some(inner),
    ensures
        name.len() > 0 ==> m.pix_fmt == Some(name),
        contains(lowercase(inner), "tv"@) ==> m.range_tag == Some("tv"@),
        !contains(lowercase(inner), "tv"@) && contains(lowercase(inner), "pc"@) ==> m.range_tag == Some(
            "pc"@,
        ),
        !contains(lowercase(inner), "tv"@) && !contains(lowercase(inner), "pc"@) ==> own_range(
            opt_text(v.color_range),
            m.range_tag,
        ),
{
    lemma_range_words(lowercase(trim(v.color_range->0@)));
}

/// Limited and full video are never known as the same range.
pub proof fn lemma_ranges_are_told_apart(
    limited: Stream,
    full: Stream,
    f: (Format, Format),
    r: (Readings, Readings),
    estimate: (i64, i64),
    m: (MediaView, MediaView),
)
    requires
        media_of(
            limited,
            f.0,
            r.0,
            estimate.0,
            pixels_of(
                opt_text(limited.pix_fmt),
                color_lower(opt_text(limited.color_range)),
                pix_found(opt_text(limited.pix_fmt)),
                inner_lower(pix_found(opt_text(limited.pix_fmt))),
            ),
            m.0,
        ),
        media_of(
            full,
            f.1,
            r.1,
            estimate.1,
            pixels_of(
                opt_text(full.pix_fmt),
                color_lower(opt_text(full.color_range)),
                pix_found(opt_text(full.pix_fmt)),
                inner_lower(pix_found(opt_text(full.pix_fmt))),
            ),
            m.1,
        ),
        !has_brackets(opt_text(limited.pix_fmt)),
        !has_brackets(opt_text(full.pix_fmt)),
        tagged(opt_text(limited.color_range), "tv"@, "mpeg"@),
        tagged(opt_text(full.color_range), "pc"@, "jpeg"@),
    ensures
        m.0.range_tag is Some && m.1.range_tag is Some,
        m.0.range_tag != m.1.range_tag,
{
    lemma_range_words(Seq::empty());
    lemma_range_follows_tag(limited, f.0, r.0, estimate.0, m.0);
    lemma_range_follows_tag(full, f.1, r.1, estimate.1, m.1);
}

/// The figures of a stream. A rate is above zero; the average goes before the
/// base rate. The container's length goes before the stream's. The bit rate is
/// the stream's where it tells one, else the container's, in whole thousands.
/// The frames are those that the stream counts, else the estimate, which needs
/// a rate and a length above zero.
pub proof fn lemma_figures(
    v: Stream,
    f: Format,
    r: Readings,
    estimate: i64,
    pixels: (Option<Seq<char>>, Option<Seq<char>>),
    m: MediaView,
)
    requires
        media_of(v, f, r, estimate, pixels, m),
    ensures
        m.width == v.width && m.height == v.height,
        m.fps is Some ==> m.fps->0.value.positive() && (m.fps == opt_figure(r.avg_rate) || m.fps
            == opt_figure(r.r_rate)),
        r.avg_rate is Some && r.avg_rate->0.value.positive() ==> m.fps == Some(r.avg_rate->0@),
        r.r_rate is Some && r.r_rate->0.value.positive() ==> m.fps is Some,
        r.format_length is Some ==> m.duration == Some(r.format_length->0@),
        r.format_length is None ==> m.duration == opt_figure(r.stream_length),
        m.bitrate_kbps is Some ==> {
            let bits = if v.bit_rate is Some && v.bit_rate->0@.len() > 0 {
                r.stream_bits
            } else {
                r.format_bits
            };
            &&& bits is Some
            &&& m.bitrate_kbps->0 * 1000 <= bits->0.whole < (m.bitrate_kbps->0 + 1) * 1000
        },
        v.bit_rate is Some && v.bit_rate->0@.len() > 0 && r.stream_bits is Some
            && r.stream_bits->0.value.positive() && r.stream_bits->0.whole >= 0
            ==> m.bitrate_kbps is Some,
        v.bit_rate is None && f.bit_rate is Some && f.bit_rate->0@.len() > 0 && r.format_bits is Some
            && r.format_bits->0.value.positive() && r.format_bits->0.whole >= 0
            ==> m.bitrate_kbps is Some,
        m.is_container_rate ==> v.bit_rate is None && f.bit_rate is Some,
        v.bit_rate is None && f.bit_rate is Some ==> m.is_container_rate,
        ({
            let told = if v.nb_frames is Some {
                parse_int(v.nb_frames->0@, i64::MIN as int, i64::MAX as int)
            } else {
                None
            };
            &&& told is Some && told->0 > 0 ==> m.total_frames is Some && m.total_frames->0 == told->0
            &&& told is None || told->0 <= 0 ==> {
                if m.fps is Some && m.duration is Some && m.duration->0.value.positive() {
                    m.total_frames == Some(estimate)
                } else {
                    m.total_frames is None
                }
            }
        }),
{
}

/// The encoder is the codec's name, else its tag, else the last word of the
/// encoder's own tag; video is interlaced exactly where its field order says so.
pub proof fn lemma_encoder_and_fields(
    v: Stream,
    f: Format,
    r: Readings,
    estimate: i64,
    pixels: (Option<Seq<char>>, Option<Seq<char>>),
    m: MediaView,
)
    requires
        media_of(v, f, r, estimate, pixels, m),
    ensures
        ({
            let name = v.codec_name is Some && v.codec_name->0@.len() > 0;
            let tag = v.codec_tag_string is Some && v.codec_tag_string->0@.len() > 0;
            let own = v.encoder_tag is Some && v.encoder_tag->0@.len() > 0;
            &&& name ==> m.encoder == opt_text(v.codec_name)
            &&& !name && tag ==> m.encoder == opt_text(v.codec_tag_string)
            &&& !name && !tag && own && words(v.encoder_tag->0@).len() > 0 ==> m.encoder == Some(
                words(v.encoder_tag->0@).last(),
            )
            &&& !name && !tag && !own ==> m.encoder is None
        }),
        m.interlaced <==> v.field_order is Some && (v.field_order->0@ == "interlaced"@
            || v.field_order->0@ == "tt"@ || v.field_order->0@ == "bb"@ || v.field_order->0@ == "tb"@
            || v.field_order->0@ == "bt"@),
{
}

/// A cut text starts as the whole one does.
pub proof fn lemma_cut_text_starts_alike(text: Seq<char>, limit: nat)
    requires
        limit >= 1,
        text.len() > limit,
    ensures
        cut_text(text, limit).len() <= text.len(),
        cut_text(text, limit).drop_last() == text.take(cut_text(text, limit).len() - 1),
{
    reveal_strlit("…");
    reveal_strlit(", ");
    let t = text.take(limit as int);
    crate::text::lemma_trim_end(t.take(limit - 1));
    if crate::text::contains(t, ", "@) {
        lemma_last_exists(t, ", "@, t.len() as int);
    }
    let c = cut_text(text, limit);
    assert(c.drop_last() =~= text.take(c.len() - 1));
}

/// The tooltip's lines tell what the table's text tells: the same encoder, the
/// field type by the same letter, and a star on a bit rate that is the
/// container's.
pub proof fn lemma_tooltip_tells_the_media(m: MediaView, upper: Seq<char>)
    ensures
        ({
            let v = tip_values(Some(m), upper);
            &&& v.len() == 9
            &&& m.encoder is Some && m.encoder->0.len() > 0 ==> v[0] == m.encoder->0
            &&& m.width is Some && m.height is Some ==> v[1] == dec_int(m.width->0 as int) + "x"@ + dec_int(
                m.height->0 as int,
            )
            &&& m.fps is Some ==> v[2] == m.fps->0.text + " fps"@
            &&& v[3] == (if m.interlaced {
                "Interlaced"@
            } else {
                "Progressive"@
            })
            &&& m.pix_fmt is Some ==> v[4] == m.pix_fmt->0
            &&& m.range_tag is Some ==> v[5] == upper
            &&& m.bitrate_kbps is Some && m.is_container_rate ==> v[6] == dec_int(
                m.bitrate_kbps->0 as int,
            ) + " kb/s"@ + "*"@
            &&& m.bitrate_kbps is Some && !m.is_container_rate ==> v[6] == dec_int(
                m.bitrate_kbps->0 as int,
            ) + " kb/s"@
            &&& m.total_frames is Some ==> v[8] == dec_int(m.total_frames->0 as int)
        }),
{
    reveal_strlit("");
    assert(dec_int(m.bitrate_kbps->0 as int) + " kb/s"@ + ""@ =~= dec_int(m.bitrate_kbps->0 as int)
        + " kb/s"@);
}

/// The pictures of a file are told by their size, their rate and field type,
/// and their format and range, as far as each is known.
pub proof fn lemma_pictures_are_told(m: MediaView)
    ensures
        ({
            let size = dec_int(m.width->0 as int) + "x"@ + dec_int(m.height->0 as int);
            let sized = m.width is Some && m.height is Some;
            &&& sized && m.fps is None ==> picture_head(m) == size
            &&& sized && m.fps is Some && !m.interlaced ==> picture_head(m) == size + "-"@ + m.fps->0.text
                + "p"@
            &&& sized && m.fps is Some && m.interlaced ==> picture_head(m) == size + "-"@ + m.fps->0.text
                + "i"@
            &&& !sized && m.fps is None ==> picture_head(m).len() == 0
            &&& m.pix_fmt is Some && m.range_tag is None ==> picture_pix(m) == m.pix_fmt->0
            &&& m.pix_fmt is Some && m.pix_fmt->0.len() > 0 && m.range_tag is Some ==> picture_pix(m)
                == m.pix_fmt->0 + " ("@ + m.range_tag->0 + ")"@
            &&& m.pix_fmt is None ==> picture_pix(m).len() == 0
        }),
{
    reveal_strlit("x");
}

/// A results row tells both of the pictures' head and format that are known,
/// and that nothing is where neither is.
pub proof fn lemma_results_tell_pictures(m: MediaView)
    ensures
        ({
            let head = picture_head(m);
            let pix = picture_pix(m);
            &&& head.len() > 0 && pix.len() > 0 ==> results_text(Some(m)) == head + ", "@ + pix
            &&& head.len() > 0 && pix.len() == 0 ==> results_text(Some(m)) == head
            &&& head.len() == 0 && pix.len() > 0 ==> results_text(Some(m)) == pix
            &&& head.len() == 0 && pix.len() == 0 ==> results_text(Some(m)) == "-unknown-"@
        }),
        results_text(None) == "-unknown-"@,
{
}

/// A rate is a ratio of what stands before and behind its stroke, or a number
/// where there is none; an empty text and `0/0` tell no rate.
pub proof fn lemma_rates_are_ratios(n: Seq<char>, d: Seq<char>)
    requires
        crate::text::free_of(n, '/'),
    ensures
        n + seq!['/'] + d != "0/0"@ ==> rate_said(n + seq!['/'] + d) == RateView::Ratio(n, d),
        n.len() > 0 ==> rate_said(n) == RateView::Number(n),
        rate_said(Seq::empty()) is Unknown,
        rate_said("0/0"@) is Unknown,
{
    reveal_strlit("0/0");
    let s = n + seq!['/'] + d;
    let p = other_than('/');
    assert forall|i: int| 0 <= i < n.len() implies p(#[trigger] s[i]) by {
        assert(n[i] != '/');
    }
    assert forall|i: int| 0 <= i < n.len() implies p(#[trigger] n[i]) by {}
    lemma_prefix_len_is(s, p, n.len() as int);
    lemma_prefix_len_is(n, p, n.len() as int);
    assert(s.take(n.len() as int) =~= n);
    assert(s.skip(n.len() as int + 1) =~= d);
    assert("0/0"@[1] == '/');
    if n == "0/0"@ {
        assert(n[1] != '/');
    }
}

} // verus!
