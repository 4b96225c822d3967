//! What is kept from one session to the next, and where.
use vstd::prelude::*;
use crate::outside::{join_path, opt_text, path_join};
use crate::text::{put, texts};

verus! {

/// The name of the state file.
pub const FILE_NAME: &'static str = "ffmetrics-state.json";

/// A queued file.
#[derive(Debug)]
pub struct FileEntry {
    pub path: String,
    pub included: bool,
}

#[verifier::ext_equal]
pub struct EntryView {
    pub path: Seq<char>,
    pub included: bool,
}

impl View for FileEntry {
    type V = EntryView;

    open spec fn view(&self) -> EntryView {
        EntryView { path: self.path@, included: self.included }
    }
}

pub open spec fn entry_views(v: Seq<FileEntry>) -> Seq<EntryView> {
    v.map_values(|e: FileEntry| e@)
}

/// A queued file as a state file may hold it: a path alone, or with its flag.
#[derive(Debug)]
pub enum FileEntryRaw {
    Path(String),
    Full(FileEntry),
}

/// A path alone is included.
impl From<FileEntryRaw> for FileEntry {
    fn from(raw: FileEntryRaw) -> (r: FileEntry) {
        match raw {
            FileEntryRaw::Path(path) => FileEntry { path, included: true },
            FileEntryRaw::Full(e) => e,
        }
    }
}

impl vstd::std_specs::convert::FromSpecImpl<FileEntryRaw> for FileEntry {
    open spec fn obeys_from_spec() -> bool {
        true
    }

    open spec fn from_spec(raw: FileEntryRaw) -> FileEntry {
        match raw {
            FileEntryRaw::Path(path) => FileEntry { path, included: true },
            FileEntryRaw::Full(e) => e,
        }
    }
}

/// Which metrics were ticked; none where the file does not say.
#[derive(Debug, Clone, Copy, PartialEq, Eq, Structural)]
pub struct MetricsState {
    pub psnr: Option<bool>,
    pub ssim: Option<bool>,
    pub vmaf: Option<bool>,
    pub xpsnr: Option<bool>,
    pub ssim2: Option<bool>,
    pub butteraugli: Option<bool>,
    pub cvvdp: Option<bool>,
}

/// The VMAF options; none where the file does not say.
#[derive(Debug)]
pub struct VmafState {
    pub model: Option<String>,
    pub phone: Option<bool>,
    pub scale: Option<bool>,
    pub pooling: Option<String>,
    pub subsample: Option<String>,
    pub threads: Option<String>,
}

pub struct VmafStateView {
    pub model: Option<Seq<char>>,
    pub phone: Option<bool>,
    pub scale: Option<bool>,
    pub pooling: Option<Seq<char>>,
    pub subsample: Option<Seq<char>>,
    pub threads: Option<Seq<char>>,
}

impl View for VmafState {
    type V = VmafStateView;

    open spec fn view(&self) -> VmafStateView {
        VmafStateView {
            model: opt_text(self.model),
            phone: self.phone,
            scale: self.scale,
            pooling: opt_text(self.pooling),
            subsample: opt_text(self.subsample),
            threads: opt_text(self.threads),
        }
    }
}

/// The other options; none where the file does not say.
#[derive(Debug)]
pub struct OptionsState {
    pub scaling: Option<String>,
    pub fps_mode: Option<String>,
    pub cell_stat: Option<String>,
    pub cell_precision: Option<String>,
    pub ref_pixfmt: Option<String>,
    pub plot_at_start: Option<bool>,
    pub plot_size: Option<String>,
    pub csv_export: Option<bool>,
    pub csv_dir: Option<String>,
    pub badframes_count: Option<String>,
    pub badframes_export_dir: Option<String>,
    pub results_autosave: Option<bool>,
    pub results_path: Option<String>,
}

pub struct OptionsView {
    pub scaling: Option<Seq<char>>,
    pub fps_mode: Option<Seq<char>>,
    pub cell_stat: Option<Seq<char>>,
    pub cell_precision: Option<Seq<char>>,
    pub ref_pixfmt: Option<Seq<char>>,
    pub plot_at_start: Option<bool>,
    pub plot_size: Option<Seq<char>>,
    pub csv_export: Option<bool>,
    pub csv_dir: Option<Seq<char>>,
    pub badframes_count: Option<Seq<char>>,
    pub badframes_export_dir: Option<Seq<char>>,
    pub results_autosave: Option<bool>,
    pub results_path: Option<Seq<char>>,
}

impl View for OptionsState {
    type V = OptionsView;

    open spec fn view(&self) -> OptionsView {
        OptionsView {
            scaling: opt_text(self.scaling),
            fps_mode: opt_text(self.fps_mode),
            cell_stat: opt_text(self.cell_stat),
            cell_precision: opt_text(self.cell_precision),
            ref_pixfmt: opt_text(self.ref_pixfmt),
            plot_at_start: self.plot_at_start,
            plot_size: opt_text(self.plot_size),
            csv_export: self.csv_export,
            csv_dir: opt_text(self.csv_dir),
            badframes_count: opt_text(self.badframes_count),
            badframes_export_dir: opt_text(self.badframes_export_dir),
            results_autosave: self.results_autosave,
            results_path: opt_text(self.results_path),
        }
    }
}

/// All that is kept from one session to the next.
#[derive(Debug)]
pub struct AppState {
    pub ref_path: String,
    pub skip: String,
    pub duration: String,
    pub files: Option<Vec<FileEntry>>,
    pub metrics: MetricsState,
    pub vmaf: VmafState,
    pub options: OptionsState,
}

pub struct StateView {
    pub ref_path: Seq<char>,
    pub skip: Seq<char>,
    pub duration: Seq<char>,
    pub files: Option<Seq<EntryView>>,
    pub metrics: MetricsState,
    pub vmaf: VmafStateView,
    pub options: OptionsView,
}

pub open spec fn opt_entries(o: Option<Vec<FileEntry>>) -> Option<Seq<EntryView>> {
    match o {
        Some(v) => Some(entry_views(v@)),
        None => None,
    }
}

impl View for AppState {
    type V = StateView;

    open spec fn view(&self) -> StateView {
        StateView {
            ref_path: self.ref_path@,
            skip: self.skip@,
            duration: self.duration@,
            files: opt_entries(self.files),
            metrics: self.metrics,
            vmaf: self.vmaf@,
            options: self.options@,
        }
    }
}

/// A state that says nothing.
pub open spec fn blank_state() -> StateView {
    StateView {
        ref_path: Seq::empty(),
        skip: Seq::empty(),
        duration: Seq::empty(),
        files: None,
        metrics: MetricsState {
            psnr: None,
            ssim: None,
            vmaf: None,
            xpsnr: None,
            ssim2: None,
            butteraugli: None,
            cvvdp: None,
        },
        vmaf: VmafStateView {
            model: None,
            phone: None,
            scale: None,
            pooling: None,
            subsample: None,
            threads: None,
        },
        options: OptionsView {
            scaling: None,
            fps_mode: None,
            cell_stat: None,
            cell_precision: None,
            ref_pixfmt: None,
            plot_at_start: None,
            plot_size: None,
            csv_export: None,
            csv_dir: None,
            badframes_count: None,
            badframes_export_dir: None,
            results_autosave: None,
            results_path: None,
        },
    }
}

impl Default for AppState {
    fn default() -> (r: AppState)
        ensures
            r@ == blank_state(),
    {
        AppState {
            ref_path: String::new(),
            skip: String::new(),
            duration: String::new(),
            files: None,
            metrics: MetricsState {
                psnr: None,
                ssim: None,
                vmaf: None,
                xpsnr: None,
                ssim2: None,
                butteraugli: None,
                cvvdp: None,
            },
            vmaf: VmafState {
                model: None,
                phone: None,
                scale: None,
                pooling: None,
                subsample: None,
                threads: None,
            },
            options: OptionsState {
                scaling: None,
                fps_mode: None,
                cell_stat: None,
                cell_precision: None,
                ref_pixfmt: None,
                plot_at_start: None,
                plot_size: None,
                csv_export: None,
                csv_dir: None,
                badframes_count: None,
                badframes_export_dir: None,
                results_autosave: None,
                results_path: None,
            },
        }
    }
}

/// The state file in a folder.
pub fn state_path(dir: &str) -> (r: String)
    ensures
        r@ == path_join(dir@, FILE_NAME@),
{
    join_path(dir, FILE_NAME)
}

/// Where the state file may be, the first place first.
pub fn candidate_paths(dirs: &Vec<String>) -> (r: Vec<String>)
    ensures
        texts(r@) == texts(dirs@).map_values(|d: Seq<char>| path_join(d, FILE_NAME@)),
{
    let ghost want = texts(dirs@).map_values(|d: Seq<char>| path_join(d, FILE_NAME@));
    let mut r: Vec<String> = Vec::new();
    let mut i: usize = 0;
    assert(texts(r@) =~= want.take(0));
    while i < dirs.len()
        invariant
            i <= dirs@.len(),
            want == texts(dirs@).map_values(|d: Seq<char>| path_join(d, FILE_NAME@)),
            texts(r@) == want.take(i as int),
        decreases dirs.len() - i,
    {
        let p = state_path(dirs[i].as_str());
        put(&mut r, p.as_str());
        i += 1;
        assert(texts(r@) =~= want.take(i as int));
    }
    assert(want.take(i as int) =~= want);
    r
}

/// What one place had.
#[derive(Debug)]
pub enum Read {
    /// No file that can be read.
    Unreadable,
    /// A file, but no state.
    Corrupt,
    State(AppState),
}

/// Whether to look at the next place.
#[derive(Debug)]
pub enum LoadStep {
    Next,
    Found(AppState),
}

/// Whether a place ends the search: only one that holds a state does. A file
/// that holds none is as good as no file.
pub fn load_step(read: Read) -> (r: LoadStep)
    ensures
        match read {
            Read::Unreadable => r is Next,
            Read::Corrupt => r is Next,
            Read::State(s) => r == LoadStep::Found(s),
        },
{
    match read {
        Read::Unreadable => LoadStep::Next,
        Read::Corrupt => LoadStep::Next,
        Read::State(s) => LoadStep::Found(s),
    }
}

/// Whether a place holds a state and none before it does.
pub open spec fn is_first_state(reads: Seq<Read>, i: int) -> bool {
    &&& 0 <= i < reads.len()
    &&& reads[i] is State
    &&& forall|j: int| 0 <= j < i ==> !((#[trigger] reads[j]) is State)
}

/// The state that is loaded, given what the places had in their order: that of
/// the first place that holds one, and none only where no place does.
pub fn load(reads: Vec<Read>) -> (r: Option<AppState>)
    ensures
        match r {
            Some(s) => exists|i: int| #[trigger]
                is_first_state(reads@, i) && reads@[i] == Read::State(s),
            None => forall|i: int| 0 <= i < reads@.len() ==> !((#[trigger] reads@[i]) is State),
        },
{
    let ghost all = reads@;
    let ghost mut k: int = 0;
    let mut rest = reads;
    assert(all.skip(0) =~= all);
    while rest.len() > 0
        invariant
            0 <= k <= all.len(),
            all == reads@,
            rest@ == all.skip(k),
            forall|j: int| 0 <= j < k ==> !((#[trigger] all[j]) is State),
        decreases rest.len(),
    {
        let read = rest.remove(0);
        assert(read == all[k]);
        assert(rest@ =~= all.skip(k + 1));
        match load_step(read) {
            LoadStep::Found(s) => {
                assert(is_first_state(all, k));
                return Some(s);
            },
            LoadStep::Next => {},
        }
        proof {
            k = k + 1;
        }
    }
    None
}

} // verus!
