//! Per-frame values as tab-separated text.
use vstd::prelude::*;
use vstd::string::StringExecFns;
use crate::metrics::ffmpeg::MetricKind;
use crate::metrics::output::plane_keys;
use crate::metrics::run::{detail_rows, rows_of, DetailView, FrameDetail};
use crate::num::Num;
use crate::outside::{
    base_name, base_of, file_name, opt_text, parent, path_file_name, path_parent, place_file,
    placed,
};
use crate::text::{chars_of, dec, dec_usize, join, joined, texts};

verus! {

/// The export setting of a run.
#[derive(Debug)]
pub struct CsvCfg {
    pub enabled: bool,
    /// The chosen folder; blank puts each file beside the distorted file.
    pub dir: String,
}

impl Default for CsvCfg {
    fn default() -> (r: CsvCfg)
        ensures
            !r.enabled,
            r.dir@ == Seq::<char>::empty(),
    {
        CsvCfg { enabled: false, dir: String::new() }
    }
}

/// `<base>.<METRIC>.csv`.
pub open spec fn csv_name(base: Seq<char>, kind: MetricKind) -> Seq<char> {
    base + "."@ + kind.name_text() + ".csv"@
}

/// Where a run's values go, given the last component and the parent of the
/// distorted file's path.
pub fn csv_path_from(
    dir: &str,
    dist_path: &str,
    kind: MetricKind,
    name: &Option<String>,
    beside: &Option<String>,
) -> (r: String)
    ensures
        r@ == placed(
            dir@,
            opt_text(*beside),
            csv_name(base_name(dist_path@, opt_text(*name)), kind),
        ),
{
    let mut s = base_of(dist_path, name);
    s.append(".");
    s.append(kind.name());
    s.append(".csv");
    place_file(dir, beside, s.as_str())
}

/// Where a run's values go: into the chosen folder, or beside the distorted
/// file where none is chosen.
pub fn csv_path_for(dir: &str, dist_path: &str, kind: MetricKind) -> (r: String)
    ensures
        r@ == placed(
            dir@,
            parent(dist_path@),
            csv_name(base_name(dist_path@, file_name(dist_path@)), kind),
        ),
{
    csv_path_from(dir, dist_path, kind, &path_file_name(dist_path), &path_parent(dist_path))
}

/// A header line, rows, and whether frames are also counted from 1.
pub struct Sheet {
    pub header: Seq<char>,
    pub rows: Seq<Seq<Num>>,
    pub has_n: bool,
}

/// The sheet of a run's detail, where the detail is that of the metric.
pub open spec fn sheet_of(kind: MetricKind, detail: DetailView) -> Option<Sheet> {
    match detail {
        DetailView::Psnr(rows) => if kind is Psnr {
            Some(
                Sheet { header: "frame\tn\tpsnr_avg\tpsnr_y\tpsnr_u\tpsnr_v"@, rows, has_n: true },
            )
        } else {
            None
        },
        DetailView::Ssim(rows) => if kind is Ssim {
            Some(Sheet { header: "frame\tn\tY\tU\tV\tAll"@, rows, has_n: true })
        } else {
            None
        },
        DetailView::Xpsnr(rows) => if kind is Xpsnr {
            Some(Sheet { header: "frame\tn\tXPSNR y\tXPSNR u\tXPSNR v"@, rows, has_n: true })
        } else {
            None
        },
        DetailView::Vmaf { cols, rows } => if kind is Vmaf {
            Some(Sheet { header: "frame\t"@ + join(cols, "\t"@), rows, has_n: false })
        } else {
            None
        },
        DetailView::Scores { cols, rows } => Some(
            Sheet { header: "frame\tn\t"@ + join(cols, "\t"@), rows, has_n: true },
        ),
        DetailView::Absent => None,
    }
}

fn copy_rows(v: &Vec<Vec<Num>>) -> (r: Vec<Vec<Num>>)
    ensures
        rows_of(r@) == rows_of(v@),
{
    let mut r: Vec<Vec<Num>> = Vec::new();
    let mut i: usize = 0;
    while i < v.len()
        invariant
            i <= v@.len(),
            r@.len() == i,
            forall|j: int| 0 <= j < i ==> (#[trigger] r@[j])@ == v@[j]@,
        decreases v.len() - i,
    {
        let mut row: Vec<Num> = Vec::new();
        let mut k: usize = 0;
        while k < v[i].len()
            invariant
                i < v@.len(),
                k <= v@[i as int]@.len(),
                row@ == v@[i as int]@.take(k as int),
            decreases v@[i as int]@.len() - k,
        {
            row.push(v[i][k]);
            k += 1;
            assert(row@ =~= v@[i as int]@.take(k as int));
        }
        assert(row@ =~= v@[i as int]@);
        r.push(row);
        i += 1;
    }
    assert(rows_of(r@) =~= rows_of(v@));
    r
}

/// The header and rows of a run's export; an error where the run kept no
/// detail of its metric.
pub fn render(kind: MetricKind, detail: &FrameDetail) -> (r: Result<
    (String, Vec<Vec<Num>>, bool),
    String,
>)
    ensures
        match r {
            Ok(x) => sheet_of(kind, detail@) == Some(
                Sheet { header: x.0@, rows: rows_of(x.1@), has_n: x.2 },
            ),
            Err(e) => sheet_of(kind, detail@) is None && e@ == "no frame data captured"@,
        },
{
    match detail {
        FrameDetail::Psnr(rows) => if matches!(kind, MetricKind::Psnr) {
            return Ok(
                ("frame\tn\tpsnr_avg\tpsnr_y\tpsnr_u\tpsnr_v".to_owned(), copy_rows(rows), true),
            );
        },
        FrameDetail::Ssim(rows) => if matches!(kind, MetricKind::Ssim) {
            return Ok(("frame\tn\tY\tU\tV\tAll".to_owned(), copy_rows(rows), true));
        },
        FrameDetail::Xpsnr(rows) => if matches!(kind, MetricKind::Xpsnr) {
            return Ok(("frame\tn\tXPSNR y\tXPSNR u\tXPSNR v".to_owned(), copy_rows(rows), true));
        },
        FrameDetail::Vmaf { cols, rows } => if matches!(kind, MetricKind::Vmaf) {
            let mut h = "frame\t".to_owned();
            h.append(joined(cols, "\t").as_str());
            return Ok((h, copy_rows(rows), false));
        },
        FrameDetail::Scores { cols, rows } => {
            let mut h = "frame\tn\t".to_owned();
            h.append(joined(cols, "\t").as_str());
            return Ok((h, copy_rows(rows), true));
        },
        FrameDetail::Absent => {},
    }
    Err("no frame data captured".to_owned())
}

/// A printed number with a comma for the decimal point.
pub open spec fn comma(s: Seq<char>) -> Seq<char> {
    s.map_values(
        |c: char|
            if c == '.' {
                ','
            } else {
                c
            },
    )
}

/// A printed number with a comma for the decimal point.
pub fn fmt_num(printed: &str) -> (r: String)
    ensures
        r@ == comma(printed@),
{
    let v = chars_of(printed);
    let mut s = String::new();
    let mut i: usize = 0;
    assert(s@ =~= comma(v@.take(0)));
    while i < v.len()
        invariant
            i <= v@.len(),
            s@ == comma(v@.take(i as int)),
        decreases v.len() - i,
    {
        s.push(
            if v[i] == '.' {
                ','
            } else {
                v[i]
            },
        );
        i += 1;
        assert(s@ =~= comma(v@.take(i as int)));
    }
    assert(v@.take(i as int) =~= v@);
    s
}

/// The numbers of a row, each after a tab.
pub open spec fn row_cells(row: Seq<Seq<char>>) -> Seq<char>
    decreases row.len(),
{
    if row.len() == 0 {
        Seq::empty()
    } else {
        row_cells(row.drop_last()) + "\t"@ + comma(row.last())
    }
}

/// The line of frame `i`.
pub open spec fn row_line(i: int, row: Seq<Seq<char>>, has_n: bool) -> Seq<char> {
    (if has_n {
        dec(i as nat) + "\t"@ + dec((i + 1) as nat)
    } else {
        dec(i as nat)
    }) + row_cells(row) + "\r\n"@
}

/// The lines of the first `n` frames.
pub open spec fn body_text(rows: Seq<Seq<Seq<char>>>, has_n: bool, n: int) -> Seq<char>
    decreases n,
{
    if n <= 0 {
        Seq::empty()
    } else {
        body_text(rows, has_n, n - 1) + row_line(n - 1, rows[n - 1], has_n)
    }
}

pub open spec fn printed_rows(v: Seq<Vec<String>>) -> Seq<Seq<Seq<char>>> {
    v.map_values(|r: Vec<String>| texts(r@))
}

fn cells_of(row: &Vec<String>) -> (r: String)
    ensures
        r@ == row_cells(texts(row@)),
{
    let mut s = String::new();
    let mut k: usize = 0;
    assert(texts(row@).take(0) =~= Seq::<Seq<char>>::empty());
    while k < row.len()
        invariant
            k <= row@.len(),
            s@ == row_cells(texts(row@).take(k as int)),
        decreases row.len() - k,
    {
        assert(texts(row@).take(k + 1).drop_last() =~= texts(row@).take(k as int));
        assert(texts(row@).take(k + 1).last() == row@[k as int]@);
        s.append("\t");
        s.append(fmt_num(row[k].as_str()).as_str());
        k += 1;
    }
    assert(texts(row@).take(k as int) =~= texts(row@));
    s
}

/// The text of an export file, from the printed numbers of its rows.
pub fn csv_text(header: &str, rows: &Vec<Vec<String>>, has_n: bool) -> (r: String)
    ensures
        r@ == header@ + "\r\n"@ + body_text(printed_rows(rows@), has_n, rows@.len() as int),
{
    let mut body = String::new();
    let mut i: usize = 0;
    let ghost all = printed_rows(rows@);
    let n: usize = rows.len();
    while i < n
        invariant
            i <= n,
            n == rows@.len(),
            all == printed_rows(rows@),
            body@ == body_text(all, has_n, i as int),
        decreases n - i,
    {
        assert(all[i as int] == texts(rows@[i as int]@));
        let mut line = dec_usize(i);
        if has_n {
            line.append("\t");
            line.append(dec_usize(i + 1).as_str());
        }
        line.append(cells_of(&rows[i]).as_str());
        line.append("\r\n");
        assert(line@ == row_line(i as int, all[i as int], has_n));
        body.append(line.as_str());
        i += 1;
    }
    let mut s = header.to_owned();
    s.append("\r\n");
    s.append(body.as_str());
    s
}

// ---- What a sheet tells ----

/// A sheet's columns are those of its rows: frame number and count first, the
/// planes of a metric in the order in which they are read from its statistics.
pub proof fn lemma_sheet_names_planes(kind: MetricKind, rows: Seq<Seq<Num>>)
    requires
        kind is Psnr || kind is Ssim,
    ensures
        ({
            let sheet = sheet_of(
                kind,
                if kind is Psnr {
                    DetailView::Psnr(rows)
                } else {
                    DetailView::Ssim(rows)
                },
            );
            &&& sheet is Some
            &&& sheet->0.rows == rows
            &&& sheet->0.has_n
            &&& sheet->0.header == "frame\tn\t"@ + join(plane_keys(kind), "\t"@)
        }),
{
    reveal_with_fuel(join, 5);
    reveal_strlit("\t");
    reveal_strlit("frame\tn\t");
    if kind is Psnr {
        reveal_strlit("frame\tn\tpsnr_avg\tpsnr_y\tpsnr_u\tpsnr_v");
        reveal_strlit("psnr_avg");
        reveal_strlit("psnr_y");
        reveal_strlit("psnr_u");
        reveal_strlit("psnr_v");
        lemma_join_four("psnr_avg"@, "psnr_y"@, "psnr_u"@, "psnr_v"@, "\t"@);
        assert("frame\tn\tpsnr_avg\tpsnr_y\tpsnr_u\tpsnr_v"@ =~= "frame\tn\t"@ + ("psnr_avg"@ + "\t"@
            + "psnr_y"@ + "\t"@ + "psnr_u"@ + "\t"@ + "psnr_v"@));
    } else {
        reveal_strlit("frame\tn\tY\tU\tV\tAll");
        reveal_strlit("Y");
        reveal_strlit("U");
        reveal_strlit("V");
        reveal_strlit("All");
        lemma_join_four("Y"@, "U"@, "V"@, "All"@, "\t"@);
        assert("frame\tn\tY\tU\tV\tAll"@ =~= "frame\tn\t"@ + ("Y"@ + "\t"@ + "U"@ + "\t"@ + "V"@ + "\t"@
            + "All"@));
    }
}

proof fn lemma_join_four(a: Seq<char>, b: Seq<char>, c: Seq<char>, d: Seq<char>, sep: Seq<char>)
    ensures
        join(seq![a, b, c, d], sep) == a + sep + b + sep + c + sep + d,
{
    reveal_with_fuel(join, 5);
    assert(seq![a, b, c, d].drop_last() =~= seq![a, b, c]);
    assert(seq![a, b, c].drop_last() =~= seq![a, b]);
    assert(seq![a, b].drop_last() =~= seq![a]);
    assert(join(seq![a, b, c, d], sep) =~= a + sep + b + sep + c + sep + d);
}

/// A run's detail makes a sheet exactly where it is the metric's own, with the
/// rows of the detail. The count from one stands in every sheet but VMAF's,
/// whose columns are its features.
pub proof fn lemma_sheets_hold_the_rows(kind: MetricKind, detail: DetailView)
    ensures
        detail is Absent ==> sheet_of(kind, detail) is None,
        detail is Psnr ==> (sheet_of(kind, detail) is Some <==> kind is Psnr),
        detail is Ssim ==> (sheet_of(kind, detail) is Some <==> kind is Ssim),
        detail is Xpsnr ==> (sheet_of(kind, detail) is Some <==> kind is Xpsnr),
        detail is Vmaf ==> (sheet_of(kind, detail) is Some <==> kind is Vmaf),
        detail is Scores ==> sheet_of(kind, detail) is Some,
        sheet_of(kind, detail) is Some ==> {
            &&& Some(sheet_of(kind, detail)->0.rows) == detail_rows(detail)
            &&& sheet_of(kind, detail)->0.has_n <==> !(detail is Vmaf)
        },
{
}

/// A printed number stands in a sheet with a comma for each point and nothing
/// else changed.
pub proof fn lemma_comma_changes_only_points(s: Seq<char>)
    ensures
        comma(s).len() == s.len(),
        forall|i: int|
            0 <= i < s.len() ==> #[trigger] comma(s)[i] == (if s[i] == '.' {
                ','
            } else {
                s[i]
            }),
        !comma(s).contains('.'),
{
}

/// Each line tells the number of its frame from zero, and from one where the
/// sheet counts so, then its numbers in order, each behind a tab. The body is
/// its lines in order.
pub proof fn lemma_lines_stand_in_order(
    rows: Seq<Seq<Seq<char>>>,
    row: Seq<Seq<char>>,
    t: Seq<char>,
    has_n: bool,
    n: int,
)
    requires
        n >= 0,
    ensures
        row_line(n, row, true) == dec(n as nat) + "\t"@ + dec((n + 1) as nat) + row_cells(row)
            + "\r\n"@,
        row_line(n, row, false) == dec(n as nat) + row_cells(row) + "\r\n"@,
        row_cells(row.push(t)) == row_cells(row) + "\t"@ + comma(t),
        row_cells(Seq::empty()) == Seq::<char>::empty(),
        body_text(rows, has_n, n + 1) == body_text(rows, has_n, n) + row_line(n, rows[n], has_n),
        body_text(rows, has_n, 0) == Seq::<char>::empty(),
{
    assert(row.push(t).drop_last() =~= row);
}

} // verus!
