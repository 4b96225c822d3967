//! The worst frames of a run: which they are, and the pictures made of them.
use vstd::prelude::*;
use vstd::string::StringExecFns;
use crate::metrics::ffmpeg::MetricKind;
use crate::metrics::vmaf::{opt_vmaf, VmafCfg, VmafView};
use crate::num::Num;
use crate::order::{before, order_of, stable_order, the_order};
use crate::outside::{
    base_name, base_of, file_name, join_path, parent, path_file_name, path_join, path_parent,
    place_file, placed,
};
use crate::text::{dec, lemma_padding_keeps_value, padded, padded_of, put, texts};

verus! {

/// The offered numbers of worst frames.
pub open spec fn count_labels() -> Seq<Seq<char>> {
    seq!["1"@, "2"@, "3"@, "4"@, "5"@, "6"@, "7"@, "8"@, "9"@, "10"@]
}

/// The offered numbers of worst frames.
pub fn count_labels_of() -> (r: Vec<String>)
    ensures
        texts(r@) == count_labels(),
{
    let mut r: Vec<String> = Vec::new();
    put(&mut r, "1");
    put(&mut r, "2");
    put(&mut r, "3");
    put(&mut r, "4");
    put(&mut r, "5");
    put(&mut r, "6");
    put(&mut r, "7");
    put(&mut r, "8");
    put(&mut r, "9");
    put(&mut r, "10");
    assert(texts(r@) =~= count_labels());
    r
}

/// Keys that put the worst value first.
pub open spec fn worst_keys(values: Seq<Num>, worst_max: bool) -> Seq<i128> {
    values.map_values(
        |v: Num|
            if worst_max {
                (-v.total()) as i128
            } else {
                v.total() as i128
            },
    )
}

/// The worst `n` values with their indices, the worst first and the earlier
/// of two equal ones first.
pub open spec fn worst(values: Seq<Num>, n: nat, worst_max: bool) -> Seq<(usize, Num)> {
    let p = the_order(worst_keys(values, worst_max));
    p.take(
        if n < values.len() {
            n as int
        } else {
            values.len() as int
        },
    ).map_values(|i: usize| (i, values[i as int]))
}

/// The worst `n` values with their indices, worst first; `worst_max` takes the
/// greatest as the worst.
pub fn worst_n(values: &Vec<Num>, n: usize, worst_max: bool) -> (r: Vec<(usize, Num)>)
    ensures
        r@ == worst(values@, n as nat, worst_max),
{
    let mut keys: Vec<i128> = Vec::new();
    let mut i: usize = 0;
    assert(keys@ =~= worst_keys(values@.take(0), worst_max));
    while i < values.len()
        invariant
            i <= values@.len(),
            keys@ == worst_keys(values@.take(i as int), worst_max),
        decreases values.len() - i,
    {
        let k: i128 = values[i].total_key() as i128;
        keys.push(
            if worst_max {
                -k
            } else {
                k
            },
        );
        i += 1;
        assert(keys@ =~= worst_keys(values@.take(i as int), worst_max));
    }
    assert(values@.take(i as int) =~= values@);
    let p = order_of(&keys);
    let m: usize = if n < values.len() {
        n
    } else {
        values.len()
    };
    let ghost pick = |i: usize| (i, values@[i as int]);
    let mut r: Vec<(usize, Num)> = Vec::new();
    let mut a: usize = 0;
    assert(r@ =~= p@.take(0).map_values(pick));
    while a < m
        invariant
            a <= m <= p@.len(),
            p@.len() == values@.len(),
            pick == (|i: usize| (i, values@[i as int])),
            stable_order(worst_keys(values@, worst_max), p@),
            r@ == p@.take(a as int).map_values(pick),
        decreases m - a,
    {
        assert(p@[a as int] < values@.len());
        r.push((p[a], values[p[a]]));
        a += 1;
        assert(r@ =~= p@.take(a as int).map_values(pick));
    }
    r
}

/// Whether the value at `i` is worse than the one at `j`: further on the losing
/// side, or equal and earlier.
pub open spec fn worse(values: Seq<Num>, worst_max: bool, i: int, j: int) -> bool {
    let (a, b) = (values[i].total(), values[j].total());
    if worst_max {
        a > b || (a == b && i < j)
    } else {
        a < b || (a == b && i < j)
    }
}

/// The picks are in range, worst first, and none that was left out is worse
/// than one of them.
pub proof fn lemma_worst_picks(values: Seq<Num>, n: nat, worst_max: bool)
    requires
        values.len() <= usize::MAX,
    ensures
        ({
            let w = worst(values, n, worst_max);
            &&& w.len() == if n < values.len() {
                n
            } else {
                values.len()
            }
            &&& forall|a: int|
                0 <= a < w.len() ==> (#[trigger] w[a]).0 < values.len() && w[a].1
                    == values[w[a].0 as int]
            &&& forall|a: int, b: int|
                0 <= a < b < w.len() ==> worse(
                    values,
                    worst_max,
                    (#[trigger] w[a]).0 as int,
                    (#[trigger] w[b]).0 as int,
                )
            &&& forall|a: int, i: int|
                0 <= a < w.len() && 0 <= i < values.len() && (forall|b: int|
                    0 <= b < w.len() ==> (#[trigger] w[b]).0 != i) ==> #[trigger] worse(
                    values,
                    worst_max,
                    w[a].0 as int,
                    i,
                )
        }),
{
    let keys = worst_keys(values, worst_max);
    crate::order::lemma_the_order(keys);
    let p = the_order(keys);
    let w = worst(values, n, worst_max);
    assert forall|a: int, i: int|
        0 <= a < w.len() && 0 <= i < values.len() && (forall|b: int|
            0 <= b < w.len() ==> (#[trigger] w[b]).0 != i) implies #[trigger] worse(
        values,
        worst_max,
        w[a].0 as int,
        i,
    ) by {
        assert(p.contains(i as usize));
        let c = choose|c: int| 0 <= c < p.len() && p[c] == i as usize;
        if c < w.len() {
            assert(w[c].0 == i);
        }
        assert(before(keys, p[a] as int, p[c] as int));
    }
    assert forall|a: int, b: int| 0 <= a < b < w.len() implies worse(
        values,
        worst_max,
        (#[trigger] w[a]).0 as int,
        (#[trigger] w[b]).0 as int,
    ) by {
        assert(before(keys, p[a] as int, p[b] as int));
    }
}

/// Frames from one value to the next: the VMAF subsample, else 1.
pub open spec fn stride(kind: MetricKind, cfg: Option<VmafView>) -> int {
    if kind is Vmaf && cfg is Some && cfg->0.subsample > 1 {
        cfg->0.subsample as int
    } else {
        1
    }
}

pub fn stride_for(kind: MetricKind, vmaf_cfg: &Option<VmafCfg>) -> (r: usize)
    ensures
        r == stride(kind, opt_vmaf(*vmaf_cfg)),
{
    match kind {
        MetricKind::Vmaf => match vmaf_cfg {
            Some(c) => if c.subsample > 1 {
                c.subsample as usize
            } else {
                1
            },
            None => 1,
        },
        _ => 1,
    }
}

/// The frame of a value: its index times the stride, as far as it can count.
pub open spec fn frame_at(idx: int, stride: int) -> int {
    if idx * stride > usize::MAX {
        usize::MAX as int
    } else {
        idx * stride
    }
}

pub fn frame_of(idx: usize, stride: usize) -> (r: usize)
    ensures
        r == frame_at(idx as int, stride as int),
{
    match idx.checked_mul(stride) {
        Some(n) => n,
        None => usize::MAX,
    }
}

pub open spec fn extract_texts(
    src: Seq<char>,
    dest: Seq<char>,
    offset: Seq<char>,
    fps: Seq<char>,
) -> Seq<Seq<char>> {
    seq![
        "-hide_banner"@,
        "-nostdin"@,
        "-probesize"@,
        "50M"@,
        "-accurate_seek"@,
        "-r"@,
        fps,
        "-i"@,
        src,
        "-ss"@,
        offset,
        "-r"@,
        "1"@,
        "-frames:v"@,
        "1"@,
        "-f"@,
        "image2"@,
        "-vf"@,
        "settb=AVTB,setpts=PTS-STARTPTS"@,
        "-pix_fmt"@,
        "bgr24"@,
        "-sws_flags"@,
        "accurate_rnd+full_chroma_int+bitexact"@,
        "-update"@,
        "1"@,
        dest,
    ]
}

/// The ffmpeg arguments that make a picture of one frame; the offset and the
/// frame rate are given as printed.
pub fn ffmpeg_args(src: &str, dest: &str, offset: &str, fps: &str) -> (r: Vec<String>)
    ensures
        texts(r@) == extract_texts(src@, dest@, offset@, fps@),
{
    let mut r: Vec<String> = Vec::new();
    put(&mut r, "-hide_banner");
    put(&mut r, "-nostdin");
    put(&mut r, "-probesize");
    put(&mut r, "50M");
    put(&mut r, "-accurate_seek");
    put(&mut r, "-r");
    put(&mut r, fps);
    put(&mut r, "-i");
    put(&mut r, src);
    put(&mut r, "-ss");
    put(&mut r, offset);
    put(&mut r, "-r");
    put(&mut r, "1");
    put(&mut r, "-frames:v");
    put(&mut r, "1");
    put(&mut r, "-f");
    put(&mut r, "image2");
    put(&mut r, "-vf");
    put(&mut r, "settb=AVTB,setpts=PTS-STARTPTS");
    put(&mut r, "-pix_fmt");
    put(&mut r, "bgr24");
    put(&mut r, "-sws_flags");
    put(&mut r, "accurate_rnd+full_chroma_int+bitexact");
    put(&mut r, "-update");
    put(&mut r, "1");
    put(&mut r, dest);
    assert(texts(r@) =~= extract_texts(src@, dest@, offset@, fps@));
    r
}

/// `<base>.<METRIC>.bf<NNNNNN>.png`, with `-ref` before the extension for the
/// reference's picture.
pub open spec fn picture_text(base: Seq<char>, kind_name: Seq<char>, frame: nat, of_ref: bool) -> Seq<
    char,
> {
    let stem = base + "."@ + kind_name + ".bf"@ + padded(frame, 6);
    if of_ref {
        stem + "-ref.png"@
    } else {
        stem + ".png"@
    }
}

/// The file name of a frame's picture.
pub fn picture_name(base: &str, kind_name: &str, frame: usize, of_ref: bool) -> (r: String)
    ensures
        r@ == picture_text(base@, kind_name@, frame as nat, of_ref),
{
    let mut s = base.to_owned();
    s.append(".");
    s.append(kind_name);
    s.append(".bf");
    s.append(padded_of(frame, 6).as_str());
    if of_ref {
        s.append("-ref.png");
    } else {
        s.append(".png");
    }
    s
}

/// Where the viewer's picture of a distorted frame goes.
pub fn tmp_dest_for(tmp: &str, dist_path: &str, kind_name: &str, frame: usize) -> (r: String)
    ensures
        r@ == path_join(
            tmp@,
            picture_text(
                base_name(dist_path@, file_name(dist_path@)),
                kind_name@,
                frame as nat,
                false,
            ),
        ),
{
    let base = base_of(dist_path, &path_file_name(dist_path));
    join_path(tmp, picture_name(base.as_str(), kind_name, frame, false).as_str())
}

/// Where the viewer's picture of a reference frame goes.
pub fn tmp_dest_ref_for(tmp: &str, dist_path: &str, kind_name: &str, frame: usize) -> (r: String)
    ensures
        r@ == path_join(
            tmp@,
            picture_text(
                base_name(dist_path@, file_name(dist_path@)),
                kind_name@,
                frame as nat,
                true,
            ),
        ),
{
    let base = base_of(dist_path, &path_file_name(dist_path));
    join_path(tmp, picture_name(base.as_str(), kind_name, frame, true).as_str())
}

/// Where an exported picture goes: into the chosen folder, or beside the
/// distorted file where none is chosen.
pub fn export_dest_for(dir: &str, dist_path: &str, kind_name: &str, frame: usize, of_ref: bool) -> (r:
    String)
    ensures
        r@ == placed(
            dir@,
            parent(dist_path@),
            picture_text(
                base_name(dist_path@, file_name(dist_path@)),
                kind_name@,
                frame as nat,
                of_ref,
            ),
        ),
{
    let base = base_of(dist_path, &path_file_name(dist_path));
    let name = picture_name(base.as_str(), kind_name, frame, of_ref);
    place_file(dir, &path_parent(dist_path), name.as_str())
}

/// A picture is taken of the source at the offset, with the source read at the
/// rate, and written where it is wanted.
pub proof fn lemma_extraction(src: Seq<char>, dest: Seq<char>, offset: Seq<char>, fps: Seq<char>)
    ensures
        ({
            let args = extract_texts(src, dest, offset, fps);
            &&& args[5] == "-r"@ && args[6] == fps
            &&& args[7] == "-i"@ && args[8] == src
            &&& args[9] == "-ss"@ && args[10] == offset
            &&& args[13] == "-frames:v"@ && args[14] == "1"@
            &&& args.last() == dest
        }),
{
}

/// The pictures of two frames of one file and metric have different names, and
/// so have those of the distorted file and of the reference.
pub proof fn lemma_pictures_have_own_names(
    base: Seq<char>,
    kind_name: Seq<char>,
    a: nat,
    b: nat,
    of_ref: bool,
)
    ensures
        a != b ==> picture_text(base, kind_name, a, of_ref) != picture_text(base, kind_name, b, of_ref),
        picture_text(base, kind_name, a, true) != picture_text(base, kind_name, a, false),
{
    reveal_strlit("-ref.png");
    reveal_strlit(".png");
    lemma_padding_keeps_value(a, 6);
    lemma_padding_keeps_value(b, 6);
    let head = base + "."@ + kind_name + ".bf"@;
    let h = head.len() as int;
    let end = if of_ref {
        "-ref.png"@
    } else {
        ".png"@
    };
    let x = picture_text(base, kind_name, a, of_ref);
    let y = picture_text(base, kind_name, b, of_ref);
    assert(x =~= head + padded(a, 6) + end);
    assert(y =~= head + padded(b, 6) + end);
    if x == y {
        assert(padded(a, 6).len() == padded(b, 6).len());
        assert(padded(a, 6) =~= x.subrange(h, h + padded(a, 6).len()));
        assert(padded(b, 6) =~= y.subrange(h, h + padded(b, 6).len()));
    }
    assert(picture_text(base, kind_name, a, true).len() == picture_text(base, kind_name, a, false).len()
        + 4);
}

/// The values of a series are so many frames apart as VMAF was told to leave
/// out, and next to each other for all else. A frame's number is its place
/// times that, as far as it can be counted.
pub proof fn lemma_frames_of_values(kind: MetricKind, cfg: Option<VmafView>, idx: int)
    requires
        idx >= 0,
    ensures
        !(kind is Vmaf) || cfg is None ==> stride(kind, cfg) == 1,
        kind is Vmaf && cfg is Some && cfg->0.subsample >= 1 ==> stride(kind, cfg)
            == cfg->0.subsample,
        kind is Vmaf && cfg is Some && cfg->0.subsample == 0 ==> stride(kind, cfg) == 1,
        idx * stride(kind, cfg) <= usize::MAX ==> frame_at(idx, stride(kind, cfg)) == idx * stride(
            kind,
            cfg,
        ),
        idx * stride(kind, cfg) > usize::MAX ==> frame_at(idx, stride(kind, cfg)) == usize::MAX,
{
}

/// One to ten worst frames are offered.
pub proof fn lemma_offered_counts(i: int)
    requires
        0 <= i < 10,
    ensures
        count_labels().len() == 10,
        count_labels()[i] == dec((i + 1) as nat),
{
    reveal_strlit("1");
    reveal_strlit("2");
    reveal_strlit("3");
    reveal_strlit("4");
    reveal_strlit("5");
    reveal_strlit("6");
    reveal_strlit("7");
    reveal_strlit("8");
    reveal_strlit("9");
    reveal_strlit("10");
    reveal_with_fuel(dec, 3);
    assert(count_labels()[i] =~= dec((i + 1) as nat));
}

} // verus!
