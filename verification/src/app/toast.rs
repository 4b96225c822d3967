//! Short notes that come up and go away by themselves.
use vstd::prelude::*;
use vstd::string::StringExecFns;

verus! {

/// How much a note matters.
#[derive(Debug, Clone, Copy, PartialEq, Eq, Structural)]
pub enum ToastKind {
    Info,
    Warning,
    Error,
}

/// A note.
#[derive(Debug)]
pub struct Toast {
    pub text: String,
    pub kind: ToastKind,
}

pub struct ToastView {
    pub text: Seq<char>,
    pub kind: ToastKind,
}

impl View for Toast {
    type V = ToastView;

    open spec fn view(&self) -> ToastView {
        ToastView { text: self.text@, kind: self.kind }
    }
}

pub open spec fn opt_toast(o: Option<Toast>) -> Option<ToastView> {
    match o {
        Some(t) => Some(t@),
        None => None,
    }
}

pub fn info(text: &str) -> (r: Toast)
    ensures
        r@ == (ToastView { text: text@, kind: ToastKind::Info }),
{
    Toast { text: text.to_owned(), kind: ToastKind::Info }
}

pub fn warning(text: &str) -> (r: Toast)
    ensures
        r@ == (ToastView { text: text@, kind: ToastKind::Warning }),
{
    Toast { text: text.to_owned(), kind: ToastKind::Warning }
}

pub fn error(text: &str) -> (r: Toast)
    ensures
        r@ == (ToastView { text: text@, kind: ToastKind::Error }),
{
    Toast { text: text.to_owned(), kind: ToastKind::Error }
}

/// An `s` where there is not just one.
pub open spec fn plural(n: nat) -> Seq<char> {
    if n == 1 {
        ""@
    } else {
        "s"@
    }
}

pub fn plural_of(n: usize) -> (r: &'static str)
    ensures
        r@ == plural(n as nat),
{
    if n == 1 {
        ""
    } else {
        "s"
    }
}

/// A text of at most 80 characters: a longer one is cut and marked.
pub open spec fn cut_80(s: Seq<char>) -> Seq<char> {
    if s.len() > 80 {
        s.take(79) + "…"@
    } else {
        s
    }
}

pub fn cut_to_80(s: &str) -> (r: String)
    ensures
        r@ == cut_80(s@),
{
    let v = crate::text::chars_of(s);
    if v.len() > 80 {
        let mut r = crate::text::string_of(&v, 0, 79);
        assert(r@ =~= s@.take(79));
        r.append("…");
        r
    } else {
        s.to_owned()
    }
}

/// A cut text has at most 80 characters.
pub proof fn lemma_cut_fits(s: Seq<char>)
    ensures
        cut_80(s).len() <= 80,
{
    reveal_strlit("…");
}

/// The path of a folder or a file as a short label: a default where there is
/// none, and the end of a long one.
pub open spec fn path_label(full: Seq<char>, default: Seq<char>) -> Seq<char> {
    if crate::text::blank(full) {
        default
    } else if full.len() > 40 {
        "…"@ + full.skip(full.len() - 39)
    } else {
        full
    }
}

pub fn path_label_of(full: &str, default: &str) -> (r: String)
    ensures
        r@ == path_label(full@, default@),
{
    if crate::text::is_blank(full) {
        return default.to_owned();
    }
    let v = crate::text::chars_of(full);
    let n: usize = v.len();
    if n > 40 {
        let mut r = "…".to_owned();
        let end = crate::text::string_of(&v, n - 39, n);
        assert(end@ =~= full@.skip(full@.len() - 39));
        r.append(end.as_str());
        r
    } else {
        full.to_owned()
    }
}

/// One thing takes no `s`, and any other number of things does.
pub proof fn lemma_plural(n: nat)
    ensures
        n == 1 ==> plural(n).len() == 0,
        n != 1 ==> plural(n) == seq!['s'],
{
    reveal_strlit("");
    reveal_strlit("s");
    assert("s"@ =~= seq!['s']);
}

/// A text that fits stays whole; a longer one starts as it did and ends in a
/// mark, and is as long as it may be.
pub proof fn lemma_cut_keeps_start(s: Seq<char>)
    ensures
        s.len() <= 80 ==> cut_80(s) == s,
        s.len() > 80 ==> cut_80(s).len() == 80 && cut_80(s).last() == '…' && cut_80(s).drop_last()
            == s.take(79),
{
    reveal_strlit("…");
    if s.len() > 80 {
        assert(cut_80(s).drop_last() =~= s.take(79));
    }
}

/// A label has at most 40 characters: a short path stays whole, and of a long
/// one the end stays behind a mark. A blank one gives way to the default.
pub proof fn lemma_labels_keep_end(full: Seq<char>, default: Seq<char>)
    ensures
        crate::text::blank(full) ==> path_label(full, default) == default,
        !crate::text::blank(full) && full.len() <= 40 ==> path_label(full, default) == full,
        !crate::text::blank(full) && full.len() > 40 ==> {
            let l = path_label(full, default);
            &&& l.len() == 40
            &&& l[0] == '…'
            &&& l.skip(1) == full.skip(full.len() - 39)
        },
{
    reveal_strlit("…");
    if full.len() > 40 {
        let l = "…"@ + full.skip(full.len() - 39);
        assert(l.skip(1) =~= full.skip(full.len() - 39));
    }
}

} // verus!
