//! What the library has from `regex` and from `std`, each call behind a
//! small function whose contract is taken on trust.
use vstd::prelude::*;

verus! {

/// The groups of a match: each the text it matched, or nothing where it took
/// no part.
pub open spec fn groups(g: Option<Vec<Option<String>>>) -> Option<Seq<Option<Seq<char>>>> {
    match g {
        Some(v) => Some(v@.map_values(|o: Option<String>| opt_text(o))),
        None => None,
    }
}

pub open spec fn opt_text(o: Option<String>) -> Option<Seq<char>> {
    match o {
        Some(s) => Some(s@),
        None => None,
    }
}

/// The groups of every match.
pub open spec fn all_groups(g: Seq<Vec<Option<String>>>) -> Seq<Seq<Option<Seq<char>>>> {
    g.map_values(|v: Vec<Option<String>>| v@.map_values(|o: Option<String>| opt_text(o)))
}

/// The groups of the leftmost match of a pattern in a text.
pub uninterp spec fn regex_first(pattern: Seq<char>, text: Seq<char>) -> Option<Seq<Option<Seq<char>>>>;

/// The groups of all matches of a pattern in a text, in order.
pub uninterp spec fn regex_every(pattern: Seq<char>, text: Seq<char>) -> Seq<Seq<Option<Seq<char>>>>;

/// A text with the leftmost match of a pattern removed.
pub uninterp spec fn regex_removed(pattern: Seq<char>, text: Seq<char>) -> Seq<char>;

/// A text in lower case.
pub uninterp spec fn lowercase(s: Seq<char>) -> Seq<char>;

/// A text in upper case.
pub uninterp spec fn uppercase(s: Seq<char>) -> Seq<char>;

/// Whether a character is a letter or a number.
pub uninterp spec fn alphanumeric(c: char) -> bool;

/// `regex::Regex::captures`: the groups of the leftmost match. The result
/// depends on the pattern and the text alone. A pattern that does not compile
/// matches nothing.
#[verifier::external_body]
pub(crate) fn regex_captures(pattern: &str, text: &str) -> (r: Option<Vec<Option<String>>>)
    ensures
        groups(r) == regex_first(pattern@, text@),
{
    let found = regex::Regex::new(pattern).ok()?.captures(text)?;
    Some(found.iter().map(|g| g.map(|m| m.as_str().to_owned())).collect())
}

/// `regex::Regex::captures_iter`: the groups of each match in order. The
/// result depends on the pattern and the text alone. A pattern that does not
/// compile matches nothing.
#[verifier::external_body]
pub(crate) fn regex_captures_iter(pattern: &str, text: &str) -> (r: Vec<Vec<Option<String>>>)
    ensures
        all_groups(r@) == regex_every(pattern@, text@),
{
    let Ok(re) = regex::Regex::new(pattern) else {
        return Vec::new();
    };
    re.captures_iter(text).map(|found| found.iter().map(|g| g.map(|m| m.as_str().to_owned())).collect()).collect()
}

/// `regex::Regex::replace` with nothing in place of the leftmost match. The
/// result depends on the pattern and the text alone. A pattern that does not
/// compile leaves the text as it is.
#[verifier::external_body]
pub(crate) fn regex_remove(pattern: &str, text: &str) -> (r: String)
    ensures
        r@ == regex_removed(pattern@, text@),
{
    let Ok(re) = regex::Regex::new(pattern) else {
        return text.to_owned();
    };
    re.replace(text, "").into_owned()
}

/// `str::to_lowercase`, a function of the text alone.
#[verifier::external_body]
pub(crate) fn to_lowercase(s: &str) -> (r: String)
    ensures
        r@ == lowercase(s@),
{
    s.to_lowercase()
}

/// `str::to_uppercase`, a function of the text alone.
#[verifier::external_body]
pub(crate) fn to_uppercase(s: &str) -> (r: String)
    ensures
        r@ == uppercase(s@),
{
    s.to_uppercase()
}

/// `char::is_alphanumeric`, a function of the character alone.
#[verifier::external_body]
pub(crate) fn is_alphanumeric(c: char) -> (r: bool)
    ensures
        r == alphanumeric(c),
{
    c.is_alphanumeric()
}

/// The group with number `i` of a match, where it took part.
pub open spec fn group(g: Option<Seq<Option<Seq<char>>>>, i: int) -> Option<Seq<char>> {
    if g is Some && 0 <= i < g->0.len() {
        g->0[i]
    } else {
        None
    }
}

pub fn group_in(v: &Vec<Option<String>>, i: usize) -> (r: Option<String>)
    ensures
        opt_text(r) == group(Some(v@.map_values(|o: Option<String>| opt_text(o))), i as int),
{
    if i < v.len() {
        match &v[i] {
            Some(s) => Some(s.clone()),
            None => None,
        }
    } else {
        None
    }
}

pub fn group_of(g: &Option<Vec<Option<String>>>, i: usize) -> (r: Option<String>)
    ensures
        opt_text(r) == group(groups(*g), i as int),
{
    match g {
        Some(v) => group_in(v, i),
        None => None,
    }
}

// ---- Paths ----

/// The last component of a path; nothing where the path ends in `..` or has
/// none.
pub uninterp spec fn file_name(path: Seq<char>) -> Option<Seq<char>>;

/// A path without its last component; nothing where it ends in a root.
pub uninterp spec fn parent(path: Seq<char>) -> Option<Seq<char>>;

/// A path with another after it.
pub uninterp spec fn path_join(dir: Seq<char>, name: Seq<char>) -> Seq<char>;

/// A component of a path.
#[derive(Debug)]
pub enum PathPart {
    /// A drive or a share.
    Prefix(String),
    Root,
    /// `.`
    Current,
    /// `..`
    Parent,
    Normal(String),
}

pub enum PartView {
    Prefix(Seq<char>),
    Root,
    Current,
    Parent,
    Normal(Seq<char>),
}

impl View for PathPart {
    type V = PartView;

    open spec fn view(&self) -> PartView {
        match self {
            PathPart::Prefix(s) => PartView::Prefix(s@),
            PathPart::Root => PartView::Root,
            PathPart::Current => PartView::Current,
            PathPart::Parent => PartView::Parent,
            PathPart::Normal(s) => PartView::Normal(s@),
        }
    }
}

pub open spec fn parts(v: Seq<PathPart>) -> Seq<PartView> {
    v.map_values(|p: PathPart| p@)
}

/// The components of a path.
pub uninterp spec fn components(path: Seq<char>) -> Seq<PartView>;

/// The path with some components.
pub uninterp spec fn path_of(parts: Seq<PartView>) -> Seq<char>;

/// `std::path::Path::file_name`. Paths are taken apart as texts, by the rules
/// of the platform that the library is built for; no file is looked at.
#[verifier::external_body]
pub(crate) fn path_file_name(path: &str) -> (r: Option<String>)
    ensures
        opt_text(r) == file_name(path@),
{
    std::path::Path::new(path).file_name().map(|s| s.to_string_lossy().into_owned())
}

/// `std::path::Path::parent`, by the rules of the platform that the library is
/// built for; no file is looked at.
#[verifier::external_body]
pub(crate) fn path_parent(path: &str) -> (r: Option<String>)
    ensures
        opt_text(r) == parent(path@),
{
    std::path::Path::new(path).parent().map(|p| p.to_string_lossy().into_owned())
}

/// `std::path::Path::join`, by the rules of the platform that the library is
/// built for; no file is looked at.
#[verifier::external_body]
pub(crate) fn join_path(dir: &str, name: &str) -> (r: String)
    ensures
        r@ == path_join(dir@, name@),
{
    std::path::Path::new(dir).join(name).to_string_lossy().into_owned()
}

/// `std::path::Path::components`, each by its variant, by the rules of the
/// platform that the library is built for; no file is looked at.
#[verifier::external_body]
pub(crate) fn path_components(path: &str) -> (r: Vec<PathPart>)
    ensures
        parts(r@) == components(path@),
{
    std::path::Path::new(path).components().map(|c| match c {
        std::path::Component::Prefix(p) => PathPart::Prefix(p.as_os_str().to_string_lossy().into_owned()),
        std::path::Component::RootDir => PathPart::Root,
        std::path::Component::CurDir => PathPart::Current,
        std::path::Component::ParentDir => PathPart::Parent,
        std::path::Component::Normal(s) => PathPart::Normal(s.to_string_lossy().into_owned()),
    }).collect()
}

/// `std::path::PathBuf` collected from components, by the rules of the
/// platform that the library is built for; no file is looked at.
#[verifier::external_body]
pub(crate) fn path_from_parts(v: &Vec<PathPart>) -> (r: String)
    ensures
        r@ == path_of(parts(v@)),
{
    let path: std::path::PathBuf = v.iter().map(|p| match p {
        PathPart::Prefix(s) => s.as_str(),
        PathPart::Root => std::path::MAIN_SEPARATOR_STR,
        PathPart::Current => ".",
        PathPart::Parent => "..",
        PathPart::Normal(s) => s.as_str(),
    }).collect();
    path.to_string_lossy().into_owned()
}

/// Where a file goes that belongs to a media file: into the chosen folder, or
/// beside the media file where none is chosen.
pub open spec fn placed(dir: Seq<char>, beside: Option<Seq<char>>, name: Seq<char>) -> Seq<char> {
    if crate::text::blank(dir) {
        if beside is Some && beside->0.len() > 0 {
            path_join(beside->0, name)
        } else {
            name
        }
    } else {
        path_join(dir, name)
    }
}

pub fn place_file(dir: &str, beside: &Option<String>, name: &str) -> (r: String)
    ensures
        r@ == placed(dir@, opt_text(*beside), name@),
{
    if crate::text::is_blank(dir) {
        match beside {
            Some(p) => if p.as_str().is_empty() {
                name.to_owned()
            } else {
                join_path(p.as_str(), name)
            },
            None => name.to_owned(),
        }
    } else {
        join_path(dir, name)
    }
}

/// The name that a file's companions start with: its last component, or the
/// whole path where it has none.
pub open spec fn base_name(path: Seq<char>, name: Option<Seq<char>>) -> Seq<char> {
    match name {
        Some(n) => n,
        None => path,
    }
}

pub fn base_of(path: &str, name: &Option<String>) -> (r: String)
    ensures
        r@ == base_name(path@, opt_text(*name)),
{
    match name {
        Some(n) => n.clone(),
        None => path.to_owned(),
    }
}

} // verus!
