//! The small picture of the reference: where in the file it is taken, and how.
use vstd::prelude::*;
use vstd::string::StringExecFns;
use crate::num::Num;
use crate::text::{dec, dec_u64, put, texts};

verus! {

/// The box that the picture fits into.
pub const BOX_W: u32 = 136;

pub const BOX_H: u32 = 76;

/// The number 2.
#[verifier::allow_in_spec]
pub fn two() -> Num
    returns
        (Num { bits: 0x4000_0000_0000_0000 }),
{
    Num { bits: 0x4000_0000_0000_0000 }
}

/// The number 5.
#[verifier::allow_in_spec]
pub fn five() -> Num
    returns
        (Num { bits: 0x4014_0000_0000_0000 }),
{
    Num { bits: 0x4014_0000_0000_0000 }
}

/// Whether a number is at least another; neither is of what is no number.
pub open spec fn at_least(a: Num, b: Num) -> bool {
    b.less(a) || a.equal(b)
}

fn is_at_least(a: Num, b: Num) -> (r: bool)
    ensures
        r == at_least(a, b),
{
    b.is_less(a) || a.is_equal(b)
}

/// The times at which a picture is tried, in seconds: a little into the file
/// where it is long enough, the start last.
pub open spec fn seeks(duration: Option<Num>) -> Seq<Seq<char>> {
    match duration {
        Some(d) => if at_least(d, five()) {
            seq!["4.0"@, "1.0"@, "0"@]
        } else if at_least(d, two()) {
            seq!["1.0"@, "0"@]
        } else if d.positive() {
            seq!["0"@]
        } else {
            seq!["1.0"@, "0"@]
        },
        None => seq!["1.0"@, "0"@],
    }
}

/// The times at which a picture is tried, in seconds.
pub fn seek_candidates(duration: Option<Num>) -> (r: Vec<String>)
    ensures
        texts(r@) == seeks(duration),
{
    let mut r: Vec<String> = Vec::new();
    let (four, one) = match duration {
        Some(d) => if is_at_least(d, five()) {
            (true, true)
        } else if is_at_least(d, two()) {
            (false, true)
        } else {
            (false, !d.is_positive())
        },
        None => (false, true),
    };
    if four {
        put(&mut r, "4.0");
    }
    if one {
        put(&mut r, "1.0");
    }
    put(&mut r, "0");
    assert(texts(r@) =~= seeks(duration));
    r
}

/// The start of a file is always tried, and last.
pub proof fn lemma_start_is_tried_last(duration: Option<Num>)
    ensures
        seeks(duration).len() > 0,
        seeks(duration).last() == "0"@,
{
}

/// `scale=<w>:<h>:force_original_aspect_ratio=decrease`, at twice the size of
/// the box.
pub open spec fn thumb_filter() -> Seq<char> {
    "scale="@ + dec(272) + ":"@ + dec(152) + ":force_original_aspect_ratio=decrease"@
}

pub open spec fn thumb_texts(path: Seq<char>, at: Seq<char>) -> Seq<Seq<char>> {
    seq![
        "-hide_banner"@,
        "-nostdin"@,
        "-probesize"@,
        "50M"@,
        "-ss"@,
        at,
        "-i"@,
        path,
        "-frames:v"@,
        "1"@,
        "-vf"@,
        thumb_filter(),
        "-f"@,
        "image2pipe"@,
        "-c:v"@,
        "png"@,
        "pipe:1"@,
    ]
}

/// The ffmpeg arguments that make a picture at a time.
pub fn thumb_args(path: &str, at: &str) -> (r: Vec<String>)
    ensures
        texts(r@) == thumb_texts(path@, at@),
{
    let mut vf = "scale=".to_owned();
    vf.append(dec_u64((BOX_W * 2) as u64).as_str());
    vf.append(":");
    vf.append(dec_u64((BOX_H * 2) as u64).as_str());
    vf.append(":force_original_aspect_ratio=decrease");
    let mut r: Vec<String> = Vec::new();
    put(&mut r, "-hide_banner");
    put(&mut r, "-nostdin");
    put(&mut r, "-probesize");
    put(&mut r, "50M");
    put(&mut r, "-ss");
    put(&mut r, at);
    put(&mut r, "-i");
    put(&mut r, path);
    put(&mut r, "-frames:v");
    put(&mut r, "1");
    put(&mut r, "-vf");
    put(&mut r, vf.as_str());
    put(&mut r, "-f");
    put(&mut r, "image2pipe");
    put(&mut r, "-c:v");
    put(&mut r, "png");
    put(&mut r, "pipe:1");
    assert(texts(r@) =~= thumb_texts(path@, at@));
    r
}

/// How a try went.
#[derive(Debug, Clone, Copy, PartialEq, Eq, Structural)]
pub enum Tried {
    Picture,
    /// ffmpeg ran, but gave no picture.
    Nothing,
    TimedOut,
    /// ffmpeg could not be started.
    Unstarted,
}

/// Whether to try the next time: not once there is a picture, nor where ffmpeg
/// cannot be started.
pub fn try_next(t: Tried) -> (r: bool)
    ensures
        r == (t is Nothing || t is TimedOut),
{
    matches!(t, Tried::Nothing | Tried::TimedOut)
}

// ---- Decoding ----

/// A decoded picture: four bytes for each pixel, row by row.
#[derive(Debug)]
pub struct Picture {
    pub width: u32,
    pub height: u32,
    pub rgba: Vec<u8>,
}

#[verifier::ext_equal]
pub struct PictureView {
    pub width: u32,
    pub height: u32,
    pub rgba: Seq<u8>,
}

impl View for Picture {
    type V = PictureView;

    open spec fn view(&self) -> PictureView {
        PictureView { width: self.width, height: self.height, rgba: self.rgba@ }
    }
}

/// There are four bytes for each pixel.
pub open spec fn is_full(p: PictureView) -> bool {
    p.rgba.len() == 4 * p.width * p.height
}

pub open spec fn opt_picture(p: Option<Picture>) -> Option<PictureView> {
    match p {
        Some(x) => Some(x@),
        None => None,
    }
}

/// The picture that a PNG file holds: its width, its height and its pixels.
pub uninterp spec fn decoded(bytes: Seq<u8>) -> Option<(u32, u32, Seq<u8>)>;

pub open spec fn picture_of(d: Option<(u32, u32, Seq<u8>)>) -> Option<PictureView> {
    match d {
        Some(t) => Some(PictureView { width: t.0, height: t.1, rgba: t.2 }),
        None => None,
    }
}

/// `image::load_from_memory_with_format` for PNG, by its own decoder, and
/// `image::DynamicImage::to_rgba8`: the pixels of a PNG file, a function of its
/// bytes alone; nothing where they are no PNG. Each pixel has four bytes.
#[verifier::external_body]
fn load_rgba(bytes: &Vec<u8>) -> (r: Option<Picture>)
    ensures
        opt_picture(r) == picture_of(decoded(bytes@)),
        match r {
            Some(p) => is_full(p@),
            None => true,
        },
{
    let img = image::load_from_memory_with_format(bytes, image::ImageFormat::Png).ok()?.to_rgba8();
    Some(Picture { width: img.width(), height: img.height(), rgba: img.into_raw() })
}

/// The picture that is taken from some bytes: they are more than a hundred,
/// and what they hold is not empty.
pub open spec fn taken(bytes: nat, p: Option<PictureView>) -> Option<PictureView> {
    if bytes > 100 && p is Some && p->0.width > 0 && p->0.height > 0 {
        p
    } else {
        None
    }
}

/// Whether a picture that some bytes hold is taken.
pub fn take_picture(bytes: usize, p: Option<Picture>) -> (r: Option<Picture>)
    ensures
        opt_picture(r) == taken(bytes as nat, opt_picture(p)),
{
    match p {
        Some(x) => if bytes > 100 && x.width > 0 && x.height > 0 {
            Some(x)
        } else {
            None
        },
        None => None,
    }
}

/// The picture that some bytes hold; nothing where they are too few, no
/// picture, or an empty one.
pub fn decode(bytes: &Vec<u8>) -> (r: Option<Picture>)
    ensures
        opt_picture(r) == taken(bytes@.len(), picture_of(decoded(bytes@))),
        match r {
            Some(p) => is_full(p@),
            None => true,
        },
{
    if bytes.len() <= 100 {
        return None;
    }
    take_picture(bytes.len(), load_rgba(bytes))
}

/// `image::ImageBuffer::from_raw` and `image::imageops::resize` with the
/// Lanczos filter: a picture in another size. Which pixels it has is left
/// unsaid, for the filter's weights rest on the sine of the platform; in its
/// own size a picture stays as it is.
#[verifier::external_body]
fn lanczos(p: Picture, width: u32, height: u32) -> (r: Option<Picture>)
    requires
        is_full(p@),
        p.width > 0,
        p.height > 0,
        0 < width <= BOX_W,
        0 < height <= BOX_H,
        p.width * height * 16 <= isize::MAX,
    ensures
        r is Some,
        r->0@.width == width,
        r->0@.height == height,
        is_full(r->0@),
        width == p.width && height == p.height ==> r->0@ == p@,
{
    let img = image::RgbaImage::from_raw(p.width, p.height, p.rgba)?;
    let r = image::imageops::resize(&img, width, height, image::imageops::FilterType::Lanczos3);
    Some(Picture { width: r.width(), height: r.height(), rgba: r.into_raw() })
}

/// A picture in a size that fits into the box.
pub fn fit(p: Picture, width: u32, height: u32) -> (r: Picture)
    requires
        is_full(p@),
        p.width > 0,
        p.height > 0,
        0 < width <= BOX_W,
        0 < height <= BOX_H,
        p.width * height * 16 <= isize::MAX,
    ensures
        r@.width == width,
        r@.height == height,
        is_full(r@),
        width == p.width && height == p.height ==> r@ == p@,
{
    lanczos(p, width, height).unwrap()
}

/// A picture is tried at four seconds of a file that has at least five, at one
/// second of one that has at least two or whose length is not known, and at
/// the start of any.
pub proof fn lemma_times_fit_the_file(d: Num)
    requires
        !d.nan(),
    ensures
        d.place() >= 0x4014_0000_0000_0000int ==> seeks(Some(d)) == seq!["4.0"@, "1.0"@, "0"@],
        0x4000_0000_0000_0000int <= d.place() < 0x4014_0000_0000_0000int ==> seeks(Some(d)) == seq![
            "1.0"@,
            "0"@,
        ],
        0 < d.place() < 0x4000_0000_0000_0000int ==> seeks(Some(d)) == seq!["0"@],
        d.place() <= 0 ==> seeks(Some(d)) == seeks(None),
        seeks(None) == seq!["1.0"@, "0"@],
{
}

/// The picture is taken of the file at the time, once, in twice the size of
/// the box.
pub proof fn lemma_thumb_arguments(path: Seq<char>, at: Seq<char>)
    ensures
        ({
            let args = thumb_texts(path, at);
            &&& args[4] == "-ss"@ && args[5] == at
            &&& args[6] == "-i"@ && args[7] == path
            &&& args[8] == "-frames:v"@ && args[9] == "1"@
            &&& args[10] == "-vf"@ && args[11] == "scale="@ + dec((2 * BOX_W) as nat) + ":"@ + dec(
                (2 * BOX_H) as nat,
            ) + ":force_original_aspect_ratio=decrease"@
            &&& args.last() == "pipe:1"@
        }),
{
}

/// A picture is taken as it is, and exactly where there are more than a hundred
/// bytes and neither side is empty.
pub proof fn lemma_pictures_are_taken_whole(bytes: nat, p: PictureView)
    ensures
        taken(bytes, Some(p)) is Some <==> bytes > 100 && p.width > 0 && p.height > 0,
        taken(bytes, Some(p)) is Some ==> taken(bytes, Some(p)) == Some(p),
        taken(bytes, None) is None,
{
}

} // verus!
