//! The results file: a row per queued file with the pooled statistics of every
//! metric.
use vstd::prelude::*;
use vstd::string::StringExecFns;
use crate::metrics::ffmpeg::{all_kinds, MetricKind};
use crate::metrics::vmaf::Pooling;
use crate::num::{is_nonzero, nonzero, Num};
use crate::outside::{join_path, opt_text, path_join};
use crate::text::{
    free_of, join, joined, lemma_split_undoes_join, put, put_all, split_on, texts,
};

verus! {

/// The default file name.
pub const RESULTS_FILE_NAME: &'static str = "RFMetrics.Results.csv";

/// The default results file in a folder.
pub fn default_results_path_in(dir: &str) -> (r: String)
    ensures
        r@ == path_join(dir@, RESULTS_FILE_NAME@),
{
    join_path(dir, RESULTS_FILE_NAME)
}

/// The folder that the application's files are in: that of the executable,
/// else the working directory, else the one for temporary files.
pub open spec fn first_dir(exe: Option<Seq<char>>, cwd: Option<Seq<char>>, temp: Seq<char>) -> Seq<char> {
    match exe {
        Some(d) => d,
        None => match cwd {
            Some(d) => d,
            None => temp,
        },
    }
}

pub fn app_dir(exe: &Option<String>, cwd: &Option<String>, temp: &str) -> (r: String)
    ensures
        r@ == first_dir(opt_text(*exe), opt_text(*cwd), temp@),
{
    match exe {
        Some(d) => d.clone(),
        None => match cwd {
            Some(d) => d.clone(),
            None => temp.to_owned(),
        },
    }
}

/// The default results file, in the folder that the application's files are in.
pub fn default_results_path(exe: &Option<String>, cwd: &Option<String>, temp: &str) -> (r: String)
    ensures
        r@ == path_join(first_dir(opt_text(*exe), opt_text(*cwd), temp@), RESULTS_FILE_NAME@),
{
    default_results_path_in(app_dir(exe, cwd, temp).as_str())
}

/// The metrics in column order.
pub open spec fn order() -> Seq<MetricKind> {
    all_kinds()
}

/// One metric of a row, as printed; an unscored one is empty throughout.
#[derive(Debug)]
pub struct Block {
    /// The pooled value.
    pub avg: Option<String>,
    /// Mean, harmonic mean, least, greatest, spread, and four percentiles.
    pub stats: Option<Vec<String>>,
    /// When the run ended.
    pub finished: Option<String>,
    pub options: String,
}

pub struct BlockView {
    pub avg: Option<Seq<char>>,
    pub stats: Option<Seq<Seq<char>>>,
    pub finished: Option<Seq<char>>,
    pub options: Seq<char>,
}

impl View for Block {
    type V = BlockView;

    open spec fn view(&self) -> BlockView {
        BlockView {
            avg: opt_text(self.avg),
            stats: match self.stats {
                Some(v) => Some(texts(v@)),
                None => None,
            },
            finished: opt_text(self.finished),
            options: self.options@,
        }
    }
}

pub open spec fn block_views(v: Seq<Block>) -> Seq<BlockView> {
    v.map_values(|b: Block| b@)
}

/// One queued file: a block per metric, then what is known of the file.
#[derive(Debug)]
pub struct ResultsRow {
    pub blocks: Vec<Block>,
    pub frames: String,
    pub frame: String,
    pub bitrate: String,
    pub path: String,
}

pub open spec fn or_empty(o: Option<Seq<char>>) -> Seq<char> {
    match o {
        Some(s) => s,
        None => Seq::empty(),
    }
}

/// `k` empty columns.
pub open spec fn empties(k: nat) -> Seq<Seq<char>> {
    Seq::new(k, |i: int| Seq::<char>::empty())
}

/// The columns of a block but for its options.
pub open spec fn block_cols(b: BlockView) -> Seq<Seq<char>> {
    seq![or_empty(b.finished), or_empty(b.avg)] + match b.stats {
        Some(s) => s,
        None => empties(9),
    }
}

/// The columns of the first `n` blocks.
pub open spec fn blocks_cols(bs: Seq<BlockView>, n: int) -> Seq<Seq<char>>
    decreases n,
{
    if n <= 0 {
        Seq::empty()
    } else {
        blocks_cols(bs, n - 1) + block_cols(bs[n - 1])
    }
}

/// All columns of a row.
pub open spec fn row_cols(
    now: Seq<char>,
    bs: Seq<BlockView>,
    media: Seq<Seq<char>>,
    app_version: Seq<char>,
    ffmpeg_version: Seq<char>,
) -> Seq<Seq<char>> {
    seq![now] + blocks_cols(bs, bs.len() as int) + bs.map_values(|b: BlockView| b.options) + media
        + seq![app_version, ffmpeg_version]
}

/// The column titles of a block.
pub open spec fn block_titles() -> Seq<Seq<char>> {
    seq![
        "DateTime"@,
        "Value"@,
        "MeanA"@,
        "MeanH"@,
        "Min"@,
        "Max"@,
        "StdDevP"@,
        "Percentile01"@,
        "Percentile05"@,
        "Percentile10"@,
        "Percentile25"@,
    ]
}

/// The columns of a metric's block in the header.
pub open spec fn titled(title: Seq<char>) -> Seq<Seq<char>> {
    block_titles().map_values(|c: Seq<char>| title + "-"@ + c)
}

fn block_titles_of() -> (r: Vec<String>)
    ensures
        texts(r@) == block_titles(),
{
    let mut r: Vec<String> = Vec::new();
    put(&mut r, "DateTime");
    put(&mut r, "Value");
    put(&mut r, "MeanA");
    put(&mut r, "MeanH");
    put(&mut r, "Min");
    put(&mut r, "Max");
    put(&mut r, "StdDevP");
    put(&mut r, "Percentile01");
    put(&mut r, "Percentile05");
    put(&mut r, "Percentile10");
    put(&mut r, "Percentile25");
    assert(texts(r@) =~= block_titles());
    r
}

fn block_header(title: &str) -> (r: Vec<String>)
    ensures
        texts(r@) == titled(title@),
{
    let cols = block_titles_of();
    let ghost f = |c: Seq<char>| title@ + "-"@ + c;
    let mut r: Vec<String> = Vec::new();
    let mut i: usize = 0;
    assert(texts(r@) =~= texts(cols@).take(0).map_values(f));
    while i < cols.len()
        invariant
            i <= cols@.len(),
            f == (|c: Seq<char>| title@ + "-"@ + c),
            texts(r@) == texts(cols@).take(i as int).map_values(f),
        decreases cols.len() - i,
    {
        let mut s = title.to_owned();
        s.append("-");
        s.append(cols[i].as_str());
        assert(s@ == f(cols@[i as int]@));
        put(&mut r, s.as_str());
        i += 1;
        assert(texts(r@) =~= texts(cols@).take(i as int).map_values(f));
    }
    assert(texts(cols@).take(i as int) =~= texts(cols@));
    r
}

/// The header's columns of the first `n` blocks.
pub open spec fn header_blocks(n: int) -> Seq<Seq<char>>
    decreases n,
{
    if n <= 0 {
        Seq::empty()
    } else {
        header_blocks(n - 1) + titled(order()[n - 1].name_text())
    }
}

/// All columns of the header.
pub open spec fn header_cols() -> Seq<Seq<char>> {
    seq!["DateTime"@] + header_blocks(7) + order().map_values(
        |k: MetricKind| k.name_text() + "-Options"@,
    ) + seq!["Frames"@, "Frame"@, "Bitrate"@, "FileSpec"@, "RFMetrics"@, "FFMpeg"@]
}

/// The header line.
pub fn header() -> (r: String)
    ensures
        r@ == join(header_cols(), "\t"@),
{
    let kinds = MetricKind::all();
    let mut cols: Vec<String> = Vec::new();
    put(&mut cols, "DateTime");
    let mut i: usize = 0;
    assert(texts(cols@) =~= seq!["DateTime"@] + header_blocks(0));
    while i < kinds.len()
        invariant
            i <= kinds@.len(),
            kinds@ == all_kinds(),
            texts(cols@) == seq!["DateTime"@] + header_blocks(i as int),
        decreases kinds.len() - i,
    {
        put_all(&mut cols, &block_header(kinds[i].name()));
        i += 1;
        assert(texts(cols@) =~= seq!["DateTime"@] + header_blocks(i as int));
    }
    let ghost head = texts(cols@);
    let ghost f = |k: MetricKind| k.name_text() + "-Options"@;
    let mut j: usize = 0;
    assert(texts(cols@) =~= head + order().take(0).map_values(f));
    while j < kinds.len()
        invariant
            j <= kinds@.len(),
            kinds@ == all_kinds(),
            f == (|k: MetricKind| k.name_text() + "-Options"@),
            texts(cols@) == head + order().take(j as int).map_values(f),
        decreases kinds.len() - j,
    {
        let mut s = kinds[j].name().to_owned();
        s.append("-Options");
        assert(s@ == f(order()[j as int]));
        put(&mut cols, s.as_str());
        j += 1;
        assert(texts(cols@) =~= head + order().take(j as int).map_values(f));
    }
    assert(order().take(j as int) =~= order());
    put(&mut cols, "Frames");
    put(&mut cols, "Frame");
    put(&mut cols, "Bitrate");
    put(&mut cols, "FileSpec");
    put(&mut cols, "RFMetrics");
    put(&mut cols, "FFMpeg");
    assert(texts(cols@) =~= header_cols());
    joined(&cols, "\t")
}

fn put_block(cols: &mut Vec<String>, b: &Block)
    ensures
        texts(final(cols)@) == texts(old(cols)@) + block_cols(b@),
{
    match &b.finished {
        Some(s) => put(cols, s.as_str()),
        None => put(cols, String::new().as_str()),
    }
    match &b.avg {
        Some(s) => put(cols, s.as_str()),
        None => put(cols, String::new().as_str()),
    }
    let ghost start = texts(cols@);
    assert(start =~= texts(old(cols)@) + seq![or_empty(b@.finished), or_empty(b@.avg)]);
    match &b.stats {
        Some(v) => put_all(cols, v),
        None => {
            let mut k: usize = 0;
            assert(texts(cols@) =~= start + empties(0));
            while k < 9
                invariant
                    k <= 9,
                    texts(cols@) == start + empties(k as nat),
                decreases 9 - k,
            {
                put(cols, String::new().as_str());
                k += 1;
                assert(texts(cols@) =~= start + empties(k as nat));
            }
        },
    }
    assert(texts(cols@) =~= texts(old(cols)@) + block_cols(b@));
}

/// One row of the results file.
pub fn row(now: &str, data: &ResultsRow, app_version: &str, ffmpeg_version: &str) -> (r: String)
    ensures
        r@ == join(
            row_cols(
                now@,
                block_views(data.blocks@),
                seq![data.frames@, data.frame@, data.bitrate@, data.path@],
                app_version@,
                ffmpeg_version@,
            ),
            "\t"@,
        ),
{
    let ghost bs = block_views(data.blocks@);
    let mut cols: Vec<String> = Vec::new();
    put(&mut cols, now);
    let mut i: usize = 0;
    assert(texts(cols@) =~= seq![now@] + blocks_cols(bs, 0));
    while i < data.blocks.len()
        invariant
            i <= data.blocks@.len(),
            bs == block_views(data.blocks@),
            texts(cols@) == seq![now@] + blocks_cols(bs, i as int),
        decreases data.blocks.len() - i,
    {
        assert(bs[i as int] == data.blocks@[i as int]@);
        put_block(&mut cols, &data.blocks[i]);
        i += 1;
        assert(texts(cols@) =~= seq![now@] + blocks_cols(bs, i as int));
    }
    let ghost head = texts(cols@);
    let ghost f = |b: BlockView| b.options;
    let mut j: usize = 0;
    assert(texts(cols@) =~= head + bs.take(0).map_values(f));
    while j < data.blocks.len()
        invariant
            j <= data.blocks@.len(),
            bs == block_views(data.blocks@),
            f == (|b: BlockView| b.options),
            texts(cols@) == head + bs.take(j as int).map_values(f),
        decreases data.blocks.len() - j,
    {
        assert(bs[j as int] == data.blocks@[j as int]@);
        put(&mut cols, data.blocks[j].options.as_str());
        j += 1;
        assert(texts(cols@) =~= head + bs.take(j as int).map_values(f));
    }
    assert(bs.take(j as int) =~= bs);
    put(&mut cols, data.frames.as_str());
    put(&mut cols, data.frame.as_str());
    put(&mut cols, data.bitrate.as_str());
    put(&mut cols, data.path.as_str());
    put(&mut cols, app_version);
    put(&mut cols, ffmpeg_version);
    assert(texts(cols@) =~= row_cols(
        now@,
        bs,
        seq![data.frames@, data.frame@, data.bitrate@, data.path@],
        app_version@,
        ffmpeg_version@,
    ));
    joined(&cols, "\t")
}

proof fn lemma_blocks_len(bs: Seq<BlockView>, n: int)
    requires
        0 <= n <= bs.len(),
        forall|i: int|
            0 <= i < bs.len() ==> ((#[trigger] bs[i]).stats is Some ==> bs[i].stats->0.len() == 9),
    ensures
        blocks_cols(bs, n).len() == 11 * n,
    decreases n,
{
    if n > 0 {
        lemma_blocks_len(bs, n - 1);
    }
}

proof fn lemma_header_len(n: int)
    requires
        0 <= n <= 7,
    ensures
        header_blocks(n).len() == 11 * n,
    decreases n,
{
    if n > 0 {
        lemma_header_len(n - 1);
    }
}

/// Every row has as many columns as the header.
pub proof fn lemma_rows_fit_header(
    now: Seq<char>,
    bs: Seq<BlockView>,
    media: Seq<Seq<char>>,
    app_version: Seq<char>,
    ffmpeg_version: Seq<char>,
)
    requires
        bs.len() == 7,
        media.len() == 4,
        forall|i: int|
            0 <= i < bs.len() ==> ((#[trigger] bs[i]).stats is Some ==> bs[i].stats->0.len() == 9),
    ensures
        row_cols(now, bs, media, app_version, ffmpeg_version).len() == header_cols().len(),
        header_cols().len() == 91,
{
    lemma_blocks_len(bs, 7);
    lemma_header_len(7);
}

proof fn lemma_block_at(bs: Seq<BlockView>, n: int, k: int)
    requires
        0 <= k < n <= bs.len(),
        forall|i: int|
            0 <= i < bs.len() ==> ((#[trigger] bs[i]).stats is Some ==> bs[i].stats->0.len() == 9),
    ensures
        blocks_cols(bs, n).subrange(11 * k, 11 * k + 11) == block_cols(bs[k]),
    decreases n,
{
    lemma_blocks_len(bs, n);
    lemma_blocks_len(bs, n - 1);
    if k < n - 1 {
        lemma_block_at(bs, n - 1, k);
        assert(blocks_cols(bs, n).subrange(11 * k, 11 * k + 11) =~= blocks_cols(
            bs,
            n - 1,
        ).subrange(11 * k, 11 * k + 11));
    } else {
        assert(blocks_cols(bs, n).subrange(11 * k, 11 * k + 11) =~= block_cols(bs[k]));
    }
}

proof fn lemma_header_at(n: int, k: int)
    requires
        0 <= k < n <= 7,
    ensures
        header_blocks(n).subrange(11 * k, 11 * k + 11) == titled(order()[k].name_text()),
    decreases n,
{
    lemma_header_len(n);
    lemma_header_len(n - 1);
    if k < n - 1 {
        lemma_header_at(n - 1, k);
        assert(header_blocks(n).subrange(11 * k, 11 * k + 11) =~= header_blocks(n - 1).subrange(
            11 * k,
            11 * k + 11,
        ));
    } else {
        assert(header_blocks(n).subrange(11 * k, 11 * k + 11) =~= titled(order()[k].name_text()));
    }
}

/// The columns of a row or of the header, by what they hold: the time, the
/// blocks in their order, the options of each, and the file and the versions.
pub open spec fn laid_out(
    cols: Seq<Seq<char>>,
    time: Seq<char>,
    block: spec_fn(int) -> Seq<Seq<char>>,
    options: spec_fn(int) -> Seq<char>,
    rest: Seq<Seq<char>>,
) -> bool {
    &&& cols.len() == 91
    &&& cols[0] == time
    &&& forall|k: int|
        0 <= k < 7 ==> #[trigger] cols.subrange(1 + 11 * k, 12 + 11 * k) == block(k)
    &&& forall|k: int| 0 <= k < 7 ==> #[trigger] cols[78 + k] == options(k)
    &&& cols.subrange(85, 91) == rest
}

/// A block whose texts hold no tab.
pub open spec fn block_tabless(b: BlockView) -> bool {
    &&& b.finished is Some ==> free_of(b.finished->0, '\t')
    &&& b.avg is Some ==> free_of(b.avg->0, '\t')
    &&& b.stats is Some ==> forall|j: int|
        0 <= j < b.stats->0.len() ==> free_of(#[trigger] b.stats->0[j], '\t')
    &&& free_of(b.options, '\t')
}

proof fn lemma_blocks_tabless(bs: Seq<BlockView>, n: int)
    requires
        0 <= n <= bs.len(),
        forall|i: int| 0 <= i < bs.len() ==> block_tabless(#[trigger] bs[i]),
    ensures
        forall|i: int|
            0 <= i < blocks_cols(bs, n).len() ==> free_of(#[trigger] blocks_cols(bs, n)[i], '\t'),
    decreases n,
{
    if n > 0 {
        lemma_blocks_tabless(bs, n - 1);
        let b = bs[n - 1];
        assert(block_tabless(b));
        let front = blocks_cols(bs, n - 1);
        let own = block_cols(b);
        assert forall|i: int| 0 <= i < own.len() implies free_of(#[trigger] own[i], '\t') by {
            if i >= 2 && b.stats is Some {
                assert(own[i] == b.stats->0[i - 2]);
            }
        }
        assert forall|i: int| 0 <= i < blocks_cols(bs, n).len() implies free_of(
            #[trigger] blocks_cols(bs, n)[i],
            '\t',
        ) by {
            if i < front.len() {
                assert(blocks_cols(bs, n)[i] == front[i]);
            } else {
                assert(blocks_cols(bs, n)[i] == own[i - front.len()]);
            }
        }
    }
}

proof fn lemma_names_tabless(k: MetricKind)
    ensures
        free_of(k.name_text(), '\t'),
{
    reveal_strlit("PSNR");
    reveal_strlit("SSIM");
    reveal_strlit("XPSNR");
    reveal_strlit("VMAF");
    reveal_strlit("SSIM2");
    reveal_strlit("BUTTER");
    reveal_strlit("CVVDP");
}

proof fn lemma_titles_tabless(j: int)
    requires
        0 <= j < block_titles().len(),
    ensures
        free_of(block_titles()[j], '\t'),
{
    reveal_strlit("DateTime");
    reveal_strlit("Value");
    reveal_strlit("MeanA");
    reveal_strlit("MeanH");
    reveal_strlit("Min");
    reveal_strlit("Max");
    reveal_strlit("StdDevP");
    reveal_strlit("Percentile01");
    reveal_strlit("Percentile05");
    reveal_strlit("Percentile10");
    reveal_strlit("Percentile25");
}

proof fn lemma_free_sum(a: Seq<char>, b: Seq<char>, c: char)
    requires
        free_of(a, c),
        free_of(b, c),
    ensures
        free_of(a + b, c),
{
    assert forall|i: int| 0 <= i < (a + b).len() implies #[trigger] (a + b)[i] != c by {
        if i < a.len() {
            assert((a + b)[i] == a[i]);
        } else {
            assert((a + b)[i] == b[i - a.len()]);
        }
    }
}

proof fn lemma_header_blocks_tabless(n: int)
    requires
        0 <= n <= 7,
    ensures
        forall|i: int|
            0 <= i < header_blocks(n).len() ==> free_of(#[trigger] header_blocks(n)[i], '\t'),
    decreases n,
{
    if n > 0 {
        lemma_header_blocks_tabless(n - 1);
        let name = order()[n - 1].name_text();
        let front = header_blocks(n - 1);
        lemma_names_tabless(order()[n - 1]);
        reveal_strlit("-");
        lemma_free_sum(name, "-"@, '\t');
        assert forall|i: int| 0 <= i < header_blocks(n).len() implies free_of(
            #[trigger] header_blocks(n)[i],
            '\t',
        ) by {
            if i < front.len() {
                assert(header_blocks(n)[i] == front[i]);
            } else {
                let j = i - front.len();
                assert(header_blocks(n)[i] == name + "-"@ + block_titles()[j]);
                lemma_titles_tabless(j);
                lemma_free_sum(name + "-"@, block_titles()[j], '\t');
            }
        }
    }
}

proof fn lemma_header_laid_out()
    ensures
        laid_out(
            header_cols(),
            "DateTime"@,
            |k: int| titled(order()[k].name_text()),
            |k: int| order()[k].name_text() + "-Options"@,
            seq!["Frames"@, "Frame"@, "Bitrate"@, "FileSpec"@, "RFMetrics"@, "FFMpeg"@],
        ),
        forall|i: int| 0 <= i < 91 ==> free_of(#[trigger] header_cols()[i], '\t'),
{
    let h = header_cols();
    let blocks = header_blocks(7);
    let opts = order().map_values(|k: MetricKind| k.name_text() + "-Options"@);
    let rest = seq!["Frames"@, "Frame"@, "Bitrate"@, "FileSpec"@, "RFMetrics"@, "FFMpeg"@];
    lemma_header_len(7);
    assert(h.len() == 91);
    assert forall|k: int| 0 <= k < 7 implies #[trigger] h.subrange(1 + 11 * k, 12 + 11 * k)
        == titled(order()[k].name_text()) by {
        lemma_header_at(7, k);
        assert(h.subrange(1 + 11 * k, 12 + 11 * k) =~= blocks.subrange(11 * k, 11 * k + 11));
    }
    assert forall|k: int| 0 <= k < 7 implies #[trigger] h[78 + k] == order()[k].name_text()
        + "-Options"@ by {
        assert(h[78 + k] == opts[k]);
    }
    assert(h.subrange(85, 91) =~= rest);
    lemma_header_blocks_tabless(7);
    assert forall|i: int| 0 <= i < 91 implies free_of(#[trigger] h[i], '\t') by {
        reveal_strlit("DateTime");
        reveal_strlit("-Options");
        reveal_strlit("Frames");
        reveal_strlit("Frame");
        reveal_strlit("Bitrate");
        reveal_strlit("FileSpec");
        reveal_strlit("RFMetrics");
        reveal_strlit("FFMpeg");
        if 1 <= i < 78 {
            assert(h[i] == blocks[i - 1]);
        } else if 78 <= i < 85 {
            let name = order()[i - 78].name_text();
            lemma_names_tabless(order()[i - 78]);
            lemma_free_sum(name, "-Options"@, '\t');
            assert(h[i] == opts[i - 78]);
        } else if 85 <= i {
            assert(h[i] == rest[i - 85]);
        }
    }
}

proof fn lemma_row_laid_out(
    now: Seq<char>,
    bs: Seq<BlockView>,
    media: Seq<Seq<char>>,
    app_version: Seq<char>,
    ffmpeg_version: Seq<char>,
)
    requires
        bs.len() == 7,
        media.len() == 4,
        forall|i: int|
            0 <= i < bs.len() ==> ((#[trigger] bs[i]).stats is Some ==> bs[i].stats->0.len() == 9),
    ensures
        laid_out(
            row_cols(now, bs, media, app_version, ffmpeg_version),
            now,
            |k: int| block_cols(bs[k]),
            |k: int| bs[k].options,
            media + seq![app_version, ffmpeg_version],
        ),
{
    let c = row_cols(now, bs, media, app_version, ffmpeg_version);
    let blocks = blocks_cols(bs, 7);
    let opts = bs.map_values(|b: BlockView| b.options);
    lemma_blocks_len(bs, 7);
    assert(c.len() == 91);
    assert forall|k: int| 0 <= k < 7 implies #[trigger] c.subrange(1 + 11 * k, 12 + 11 * k)
        == block_cols(bs[k]) by {
        lemma_block_at(bs, 7, k);
        assert(c.subrange(1 + 11 * k, 12 + 11 * k) =~= blocks.subrange(11 * k, 11 * k + 11));
    }
    assert forall|k: int| 0 <= k < 7 implies #[trigger] c[78 + k] == bs[k].options by {
        assert(c[78 + k] == opts[k]);
    }
    assert(c.subrange(85, 91) =~= media + seq![app_version, ffmpeg_version]);
}

/// Where no text of a row holds a tab, the row and the header split at their
/// tabs into the same number of fields, and each field stands under its own
/// title.
pub proof fn lemma_fields_stand_under_titles(
    now: Seq<char>,
    bs: Seq<BlockView>,
    media: Seq<Seq<char>>,
    app_version: Seq<char>,
    ffmpeg_version: Seq<char>,
)
    requires
        bs.len() == 7,
        media.len() == 4,
        forall|i: int|
            0 <= i < bs.len() ==> ((#[trigger] bs[i]).stats is Some ==> bs[i].stats->0.len() == 9),
        forall|i: int| 0 <= i < bs.len() ==> block_tabless(#[trigger] bs[i]),
        forall|i: int| 0 <= i < media.len() ==> free_of(#[trigger] media[i], '\t'),
        free_of(now, '\t'),
        free_of(app_version, '\t'),
        free_of(ffmpeg_version, '\t'),
    ensures
        ({
            let cols = row_cols(now, bs, media, app_version, ffmpeg_version);
            let fields = split_on(join(cols, "\t"@), '\t');
            let titles = split_on(join(header_cols(), "\t"@), '\t');
            &&& fields == cols
            &&& titles == header_cols()
            &&& laid_out(
                fields,
                now,
                |k: int| block_cols(bs[k]),
                |k: int| bs[k].options,
                media + seq![app_version, ffmpeg_version],
            )
            &&& laid_out(
                titles,
                "DateTime"@,
                |k: int| titled(order()[k].name_text()),
                |k: int| order()[k].name_text() + "-Options"@,
                seq!["Frames"@, "Frame"@, "Bitrate"@, "FileSpec"@, "RFMetrics"@, "FFMpeg"@],
            )
        }),
{
    let c = row_cols(now, bs, media, app_version, ffmpeg_version);
    let blocks = blocks_cols(bs, 7);
    let opts = bs.map_values(|b: BlockView| b.options);
    lemma_row_laid_out(now, bs, media, app_version, ffmpeg_version);
    lemma_header_laid_out();
    lemma_blocks_len(bs, 7);
    lemma_blocks_tabless(bs, 7);
    reveal_strlit("\t");
    assert("\t"@ =~= seq!['\t']);
    assert forall|i: int| 0 <= i < c.len() implies free_of(#[trigger] c[i], '\t') by {
        if 1 <= i < 78 {
            assert(c[i] == blocks[i - 1]);
        } else if 78 <= i < 85 {
            assert(block_tabless(bs[i - 78]));
            assert(c[i] == opts[i - 78]);
        } else if 85 <= i < 89 {
            assert(c[i] == media[i - 85]);
        }
    }
    lemma_split_undoes_join(c, '\t');
    lemma_split_undoes_join(header_cols(), '\t');
}

/// The settings that a run was made under, as the results file tells them.
pub open spec fn option_parts(
    skip: Option<Num>,
    clip_dur: Option<Num>,
    skip_text: Seq<char>,
    clip_text: Seq<char>,
    vmaf: Option<(Seq<char>, Pooling)>,
) -> Seq<Seq<char>> {
    (if nonzero(skip) {
        seq!["Skip="@ + skip_text]
    } else {
        Seq::empty()
    }) + (if nonzero(clip_dur) {
        seq!["Duration="@ + clip_text]
    } else {
        Seq::empty()
    }) + match vmaf {
        Some(v) => seq!["Model="@ + v.0, "Pool="@ + v.1.filter_text()],
        None => Seq::empty(),
    }
}

/// The `-Options` column: what was trimmed and, for VMAF, the model and the
/// pooling; the trims are given as printed too.
pub fn options_for(
    skip: Option<Num>,
    clip_dur: Option<Num>,
    skip_text: &str,
    clip_text: &str,
    vmaf: Option<(&str, Pooling)>,
) -> (r: String)
    ensures
        r@ == join(
            option_parts(
                skip,
                clip_dur,
                skip_text@,
                clip_text@,
                match vmaf {
                    Some(v) => Some((v.0@, v.1)),
                    None => None,
                },
            ),
            ", "@,
        ),
{
    let mut parts: Vec<String> = Vec::new();
    if is_nonzero(skip) {
        let mut s = "Skip=".to_owned();
        s.append(skip_text);
        put(&mut parts, s.as_str());
    }
    if is_nonzero(clip_dur) {
        let mut s = "Duration=".to_owned();
        s.append(clip_text);
        put(&mut parts, s.as_str());
    }
    if let Some(v) = vmaf {
        let mut s = "Model=".to_owned();
        s.append(v.0);
        put(&mut parts, s.as_str());
        let mut t = "Pool=".to_owned();
        t.append(v.1.as_filter_str());
        put(&mut parts, t.as_str());
    }
    assert(texts(parts@) =~= option_parts(
        skip,
        clip_dur,
        skip_text@,
        clip_text@,
        match vmaf {
            Some(v) => Some((v.0@, v.1)),
            None => None,
        },
    ));
    joined(&parts, ", ")
}

/// Lines, each with its ending.
pub open spec fn ended(ls: Seq<Seq<char>>) -> Seq<char>
    decreases ls.len(),
{
    if ls.len() == 0 {
        Seq::empty()
    } else {
        ended(ls.drop_last()) + ls.last() + "\r\n"@
    }
}

/// What is appended to the results file: the header first where the file is
/// new or empty, then the rows.
pub fn append_text(fresh: bool, rows: &Vec<String>) -> (r: String)
    ensures
        r@ == ended(
            if fresh {
                seq![join(header_cols(), "\t"@)] + texts(rows@)
            } else {
                texts(rows@)
            },
        ),
{
    let mut all: Vec<String> = Vec::new();
    if fresh {
        put(&mut all, header().as_str());
    }
    put_all(&mut all, rows);
    assert(texts(all@) =~= if fresh {
        seq![join(header_cols(), "\t"@)] + texts(rows@)
    } else {
        texts(rows@)
    });
    let mut s = String::new();
    let mut i: usize = 0;
    assert(texts(all@).take(0) =~= Seq::<Seq<char>>::empty());
    while i < all.len()
        invariant
            i <= all@.len(),
            s@ == ended(texts(all@).take(i as int)),
        decreases all.len() - i,
    {
        assert(texts(all@).take(i + 1).drop_last() =~= texts(all@).take(i as int));
        assert(texts(all@).take(i + 1).last() == all@[i as int]@);
        s.append(all[i].as_str());
        s.append("\r\n");
        i += 1;
    }
    assert(texts(all@).take(i as int) =~= texts(all@));
    s
}

/// The application's files are in the folder of the executable, else in the
/// working directory, else in the one for temporary files.
pub proof fn lemma_folder_of_files(exe: Option<Seq<char>>, cwd: Option<Seq<char>>, temp: Seq<char>)
    ensures
        exe is Some ==> first_dir(exe, cwd, temp) == exe->0,
        exe is None && cwd is Some ==> first_dir(exe, cwd, temp) == cwd->0,
        exe is None && cwd is None ==> first_dir(exe, cwd, temp) == temp,
{
}

/// Every line is written with its ending, behind those before it.
pub proof fn lemma_lines_are_ended(ls: Seq<Seq<char>>, l: Seq<char>)
    ensures
        ended(ls.push(l)) == ended(ls) + l + "\r\n"@,
        ended(Seq::empty()) == Seq::<char>::empty(),
{
    assert(ls.push(l).drop_last() =~= ls);
}

/// A block tells when its run ended, then the pooled value, then its nine
/// statistics in order; what is not known is left empty.
pub proof fn lemma_block_columns(b: BlockView, j: int)
    requires
        b.stats is Some ==> b.stats->0.len() == 9,
        0 <= j < 9,
    ensures
        block_cols(b).len() == 11,
        b.finished is Some ==> block_cols(b)[0] == b.finished->0,
        b.finished is None ==> block_cols(b)[0].len() == 0,
        b.avg is Some ==> block_cols(b)[1] == b.avg->0,
        b.avg is None ==> block_cols(b)[1].len() == 0,
        b.stats is Some ==> block_cols(b)[2 + j] == b.stats->0[j],
        b.stats is None ==> block_cols(b)[2 + j].len() == 0,
{
}

} // verus!
