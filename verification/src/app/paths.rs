//! Paths as the queue knows them: one key per file however it is spelled, and
//! names that tell files apart.
use vstd::prelude::*;
use crate::outside::{
    components, join_path, lowercase, opt_text, parts, path_components, path_from_parts, path_join,
    path_of, to_lowercase, PartView, PathPart,
};
use crate::text::{chars_of, join, joined, put, texts};

verus! {

/// What `..` leaves of the components before it: a root or a drive stays.
pub open spec fn stepped_up(v: Seq<PartView>) -> Seq<PartView> {
    if v.len() > 0 && v.last() is Normal {
        v.drop_last()
    } else {
        v
    }
}

/// Components without `.`, each `..` resolved; one with nothing to leave is
/// dropped.
pub open spec fn resolved(v: Seq<PartView>) -> Seq<PartView>
    decreases v.len(),
{
    if v.len() == 0 {
        v
    } else {
        let head = resolved(v.drop_last());
        match v.last() {
            PartView::Current => head,
            PartView::Parent => stepped_up(head),
            p => head.push(p),
        }
    }
}

/// Resolves `.` and `..` among components.
pub fn resolve(v: &Vec<PathPart>) -> (r: Vec<PathPart>)
    ensures
        parts(r@) == resolved(parts(v@)),
{
    let mut r: Vec<PathPart> = Vec::new();
    let mut i: usize = 0;
    assert(parts(r@) =~= resolved(parts(v@).take(0)));
    while i < v.len()
        invariant
            i <= v@.len(),
            parts(r@) == resolved(parts(v@).take(i as int)),
        decreases v.len() - i,
    {
        let ghost before = parts(r@);
        let ghost seen = parts(v@).take(i + 1);
        assert(seen.drop_last() =~= parts(v@).take(i as int));
        assert(seen.last() == v@[i as int]@);
        match &v[i] {
            PathPart::Current => {},
            PathPart::Parent => {
                if r.len() > 0 && matches!(&r[r.len() - 1], PathPart::Normal(_)) {
                    assert(before.last() is Normal);
                    let _ = r.pop();
                    assert(parts(r@) =~= before.drop_last());
                } else {
                    assert(stepped_up(before) == before) by {
                        if before.len() > 0 {
                            assert(before.last() == r@.last()@);
                        }
                    }
                }
            },
            PathPart::Prefix(s) => {
                r.push(PathPart::Prefix(s.clone()));
                assert(parts(r@) =~= before.push(v@[i as int]@));
            },
            PathPart::Root => {
                r.push(PathPart::Root);
                assert(parts(r@) =~= before.push(v@[i as int]@));
            },
            PathPart::Normal(s) => {
                r.push(PathPart::Normal(s.clone()));
                assert(parts(r@) =~= before.push(v@[i as int]@));
            },
        }
        i += 1;
    }
    assert(parts(v@).take(i as int) =~= parts(v@));
    r
}

/// Neither `.` nor `..` among components.
pub open spec fn plain_parts(v: Seq<PartView>) -> bool {
    forall|i: int| 0 <= i < v.len() ==> !(#[trigger] v[i] is Current) && !(v[i] is Parent)
}

/// Resolved components hold neither `.` nor `..`.
pub proof fn lemma_resolved_is_plain(v: Seq<PartView>)
    ensures
        plain_parts(resolved(v)),
    decreases v.len(),
{
    if v.len() > 0 {
        lemma_resolved_is_plain(v.drop_last());
    }
}

/// Components that hold neither `.` nor `..` stay as they are.
pub proof fn lemma_plain_stays(v: Seq<PartView>)
    requires
        plain_parts(v),
    ensures
        resolved(v) == v,
    decreases v.len(),
{
    if v.len() > 0 {
        let head = v.drop_last();
        assert forall|i: int| 0 <= i < head.len() implies !(#[trigger] head[i] is Current) && !(
        head[i] is Parent) by {
            assert(head[i] == v[i]);
        }
        lemma_plain_stays(head);
        assert(!(v[v.len() - 1] is Current) && !(v[v.len() - 1] is Parent));
        assert(head.push(v.last()) =~= v);
    }
}

/// Resolving twice is resolving once.
pub proof fn lemma_resolved_twice(v: Seq<PartView>)
    ensures
        resolved(resolved(v)) == resolved(v),
{
    lemma_resolved_is_plain(v);
    lemma_plain_stays(resolved(v));
}

/// A path without `.` and `..`, by its spelling alone: no file is looked at
/// and no link followed.
pub fn lexical_normalize(p: &str) -> (r: String)
    ensures
        r@ == path_of(resolved(components(p@))),
{
    let v = path_components(p);
    let clean = resolve(&v);
    path_from_parts(&clean)
}

/// A text with one character in place of another.
pub open spec fn replaced(s: Seq<char>, a: char, b: char) -> Seq<char> {
    s.map_values(
        |c: char|
            if c == a {
                b
            } else {
                c
            },
    )
}

fn replace_char(s: &str, a: char, b: char) -> (r: String)
    ensures
        r@ == replaced(s@, a, b),
{
    let v = chars_of(s);
    let mut r = String::new();
    let mut i: usize = 0;
    while i < v.len()
        invariant
            i <= v@.len(),
            r@ =~= replaced(v@.take(i as int), a, b),
        decreases v.len() - i,
    {
        r.push(
            if v[i] == a {
                b
            } else {
                v[i]
            },
        );
        i += 1;
        assert(v@.take(i as int).drop_last() =~= v@.take(i - 1));
    }
    assert(v@.take(i as int) =~= v@);
    r
}

/// The key of a normalised path: on Windows neither case nor the kind of
/// separator tells two files apart.
pub open spec fn folded(normal: Seq<char>, windows: bool) -> Seq<char> {
    if windows {
        lowercase(replaced(normal, '/', '\\'))
    } else {
        normal
    }
}

pub fn fold_key(normal: &str, windows: bool) -> (r: String)
    ensures
        r@ == folded(normal@, windows),
{
    if windows {
        to_lowercase(replace_char(normal, '/', '\\').as_str())
    } else {
        normal.to_owned()
    }
}

/// The whole path of `p`, seen from `cwd`; as it is where there is none.
pub open spec fn seen_from(p: Seq<char>, cwd: Option<Seq<char>>) -> Seq<char> {
    match cwd {
        Some(dir) => path_join(dir, p),
        None => p,
    }
}

pub open spec fn key_of(p: Seq<char>, cwd: Option<Seq<char>>, windows: bool) -> Seq<char> {
    folded(path_of(resolved(components(seen_from(p, cwd)))), windows)
}

/// The key of a path, the same for all its spellings.
pub fn norm_key(p: &str, cwd: &Option<String>, windows: bool) -> (r: String)
    ensures
        r@ == key_of(p@, opt_text(*cwd), windows),
{
    let whole = match cwd {
        Some(dir) => join_path(dir.as_str(), p),
        None => p.to_owned(),
    };
    let normal = lexical_normalize(whole.as_str());
    fold_key(normal.as_str(), windows)
}

/// Paths whose components resolve to the same have the same key.
pub proof fn lemma_spellings_share_a_key(
    a: Seq<char>,
    b: Seq<char>,
    cwd: Option<Seq<char>>,
    windows: bool,
)
    requires
        resolved(components(seen_from(a, cwd))) == resolved(components(seen_from(b, cwd))),
    ensures
        key_of(a, cwd, windows) == key_of(b, cwd, windows),
{
}

// ---- Names ----

/// The text of a component.
pub open spec fn part_text(p: PartView, sep: Seq<char>) -> Seq<char> {
    match p {
        PartView::Prefix(s) => s,
        PartView::Root => sep,
        PartView::Current => "."@,
        PartView::Parent => ".."@,
        PartView::Normal(s) => s,
    }
}

pub open spec fn part_texts(v: Seq<PartView>, sep: Seq<char>) -> Seq<Seq<char>> {
    v.map_values(|p: PartView| part_text(p, sep))
}

fn part_texts_of(v: &Vec<PathPart>, sep: &str) -> (r: Vec<String>)
    ensures
        texts(r@) == part_texts(parts(v@), sep@),
{
    let mut r: Vec<String> = Vec::new();
    let mut i: usize = 0;
    let ghost all = part_texts(parts(v@), sep@);
    assert(texts(r@) =~= all.take(0));
    while i < v.len()
        invariant
            i <= v@.len(),
            all == part_texts(parts(v@), sep@),
            texts(r@) == all.take(i as int),
        decreases v.len() - i,
    {
        assert(all[i as int] == part_text(v@[i as int]@, sep@));
        let s: &str = match &v[i] {
            PathPart::Prefix(s) => s.as_str(),
            PathPart::Root => sep,
            PathPart::Current => ".",
            PathPart::Parent => "..",
            PathPart::Normal(s) => s.as_str(),
        };
        put(&mut r, s);
        i += 1;
        assert(texts(r@) =~= all.take(i as int));
    }
    assert(all.take(i as int) =~= all);
    r
}

/// The last `n` pieces, or all where there are fewer.
pub open spec fn tail(v: Seq<Seq<char>>, n: int) -> Seq<Seq<char>> {
    if v.len() >= n {
        v.skip(v.len() - n)
    } else {
        v
    }
}

/// Whether no other list ends as list `i` does with its last `n` pieces.
pub open spec fn tells_apart(all: Seq<Seq<Seq<char>>>, i: int, n: int) -> bool {
    forall|j: int| 0 <= j < all.len() && j != i ==> tail(#[trigger] all[j], n) != tail(all[i], n)
}

/// The least number of last pieces from `n` on that tells list `i` apart; all
/// where none does.
pub open spec fn name_len(all: Seq<Seq<Seq<char>>>, i: int, n: int) -> int
    decreases all[i].len() - n + 1,
{
    if n > all[i].len() {
        all[i].len() as int
    } else if tells_apart(all, i, n) {
        n
    } else {
        name_len(all, i, n + 1)
    }
}

/// The name of file `i`: the shortest end of its path that no other shares.
pub open spec fn name_of(all: Seq<Seq<Seq<char>>>, i: int, sep: Seq<char>) -> Seq<char> {
    join(tail(all[i], name_len(all, i, 1)), sep)
}

pub open spec fn names_of(all: Seq<Seq<Seq<char>>>, sep: Seq<char>) -> Seq<Seq<char>> {
    Seq::new(all.len(), |i: int| name_of(all, i, sep))
}

/// Lists of texts.
pub open spec fn lists_of(v: Seq<Vec<String>>) -> Seq<Seq<Seq<char>>> {
    v.map_values(|l: Vec<String>| texts(l@))
}

fn tail_of(v: &Vec<String>, n: usize) -> (r: Vec<String>)
    ensures
        texts(r@) == tail(texts(v@), n as int),
{
    let len: usize = v.len();
    let from: usize = if len >= n {
        len - n
    } else {
        0
    };
    let mut r: Vec<String> = Vec::new();
    let mut k: usize = from;
    while k < len
        invariant
            from <= k <= len,
            len == v@.len(),
            texts(r@) =~= texts(v@).subrange(from as int, k as int),
        decreases len - k,
    {
        put(&mut r, v[k].as_str());
        k += 1;
    }
    assert(texts(r@) =~= tail(texts(v@), n as int));
    r
}

fn is_apart(all: &Vec<Vec<String>>, i: usize, n: usize) -> (r: bool)
    requires
        i < all@.len(),
    ensures
        r == tells_apart(lists_of(all@), i as int, n as int),
{
    let ghost views = lists_of(all@);
    let own = tail_of(&all[i], n);
    assert(views[i as int] == texts(all@[i as int]@));
    let mut j: usize = 0;
    while j < all.len()
        invariant
            j <= all@.len(),
            i < all@.len(),
            views == lists_of(all@),
            texts(own@) == tail(views[i as int], n as int),
            forall|k: int|
                0 <= k < j && k != i ==> tail(#[trigger] views[k], n as int) != tail(
                    views[i as int],
                    n as int,
                ),
        decreases all.len() - j,
    {
        assert(views[j as int] == texts(all@[j as int]@));
        if j != i && crate::text::same_all(&tail_of(&all[j], n), &own) {
            assert(tail(views[j as int], n as int) == tail(views[i as int], n as int));
            return false;
        }
        j += 1;
    }
    true
}

fn shortest(all: &Vec<Vec<String>>, i: usize) -> (r: usize)
    requires
        i < all@.len(),
    ensures
        r == name_len(lists_of(all@), i as int, 1),
{
    let ghost views = lists_of(all@);
    assert(views[i as int] == texts(all@[i as int]@));
    let len: usize = all[i].len();
    if len == 0 {
        return 0;
    }
    let mut n: usize = 1;
    while n < len
        invariant
            i < all@.len(),
            views == lists_of(all@),
            len == views[i as int].len(),
            1 <= n <= len,
            name_len(views, i as int, 1) == name_len(views, i as int, n as int),
        decreases len - n,
    {
        if is_apart(all, i, n) {
            return n;
        }
        n += 1;
    }
    assert(name_len(views, i as int, len + 1) == len);
    len
}

/// Names for files whose paths have these pieces.
pub fn names_for(all: &Vec<Vec<String>>, sep: &str) -> (r: Vec<String>)
    ensures
        texts(r@) == names_of(lists_of(all@), sep@),
{
    let ghost views = lists_of(all@);
    let ghost want = names_of(views, sep@);
    let mut r: Vec<String> = Vec::new();
    let mut i: usize = 0;
    assert(texts(r@) =~= want.take(0));
    while i < all.len()
        invariant
            i <= all@.len(),
            views == lists_of(all@),
            want == names_of(views, sep@),
            texts(r@) == want.take(i as int),
        decreases all.len() - i,
    {
        assert(views[i as int] == texts(all@[i as int]@));
        let take: usize = shortest(all, i);
        let cut = tail_of(&all[i], take);
        let name = joined(&cut, sep);
        put(&mut r, name.as_str());
        assert(want[i as int] == name@);
        i += 1;
        assert(texts(r@) =~= want.take(i as int));
    }
    assert(want.take(i as int) =~= want);
    r
}

/// The pieces of each path.
pub open spec fn pieces_of(paths: Seq<Seq<char>>, sep: Seq<char>) -> Seq<Seq<Seq<char>>> {
    paths.map_values(|p: Seq<char>| part_texts(components(p), sep))
}

/// A name for each path: the shortest end that no other path shares, or the
/// whole where none tells it apart.
pub fn display_names(paths: &Vec<String>, sep: &str) -> (r: Vec<String>)
    ensures
        texts(r@) == names_of(pieces_of(texts(paths@), sep@), sep@),
{
    let ghost want = pieces_of(texts(paths@), sep@);
    let mut all: Vec<Vec<String>> = Vec::new();
    let mut i: usize = 0;
    while i < paths.len()
        invariant
            i <= paths@.len(),
            want == pieces_of(texts(paths@), sep@),
            lists_of(all@) =~= want.take(i as int),
        decreases paths.len() - i,
    {
        assert(texts(paths@)[i as int] == paths@[i as int]@);
        let v = path_components(paths[i].as_str());
        let ghost before = all@;
        let pieces = part_texts_of(&v, sep);
        all.push(pieces);
        assert(lists_of(all@) =~= lists_of(before).push(want[i as int]));
        i += 1;
        assert(lists_of(all@) =~= want.take(i as int));
    }
    assert(want.take(i as int) =~= want);
    names_for(&all, sep)
}

/// Where some end of a path tells it apart, its name is one, and no shorter
/// end does.
pub proof fn lemma_name_is_shortest(all: Seq<Seq<Seq<char>>>, i: int, n: int, from: int)
    requires
        0 <= i < all.len(),
        1 <= from <= n <= all[i].len(),
        tells_apart(all, i, n),
    ensures
        from <= name_len(all, i, from) <= n,
        tells_apart(all, i, name_len(all, i, from)),
        forall|k: int| from <= k < name_len(all, i, from) ==> !#[trigger] tells_apart(all, i, k),
    decreases n - from,
{
    if !tells_apart(all, i, from) {
        lemma_name_is_shortest(all, i, n, from + 1);
        assert forall|k: int| from <= k < name_len(all, i, from) implies !#[trigger] tells_apart(
            all,
            i,
            k,
        ) by {
            if k > from {
            }
        }
    }
}

proof fn lemma_name_len(all: Seq<Seq<Seq<char>>>, i: int, from: int)
    requires
        0 <= i < all.len(),
        1 <= from,
    ensures
        0 <= name_len(all, i, from) <= all[i].len(),
        name_len(all, i, from) == all[i].len() || tells_apart(all, i, name_len(all, i, from)),
    decreases all[i].len() - from + 1,
{
    if from <= all[i].len() && !tells_apart(all, i, from) {
        lemma_name_len(all, i, from + 1);
    }
}

/// Different files have different names: the pieces of two names are never
/// the same.
pub proof fn lemma_names_differ(all: Seq<Seq<Seq<char>>>, i: int, j: int)
    requires
        0 <= i < all.len(),
        0 <= j < all.len(),
        all[i] != all[j],
    ensures
        tail(all[i], name_len(all, i, 1)) != tail(all[j], name_len(all, j, 1)),
{
    lemma_name_len(all, i, 1);
    lemma_name_len(all, j, 1);
    let (m, n) = (name_len(all, i, 1), name_len(all, j, 1));
    if tail(all[i], m) == tail(all[j], n) {
        assert(tail(all[i], m).len() == m);
        assert(tail(all[j], n).len() == n);
        assert(m == n);
        if m == all[i].len() && n == all[j].len() {
            assert(tail(all[i], m) =~= all[i]);
            assert(tail(all[j], n) =~= all[j]);
        } else if m != all[i].len() {
            assert(tells_apart(all, i, m));
            assert(tail(all[j], m) != tail(all[i], m));
        } else {
            assert(tells_apart(all, j, n));
            assert(tail(all[i], n) != tail(all[j], n));
        }
    }
}

/// A folder and the step out of it cancel, the step to where one is changes
/// nothing, and no step leads out of a root.
pub proof fn lemma_steps(v: Seq<PartView>, name: Seq<char>)
    ensures
        resolved(v.push(PartView::Normal(name)).push(PartView::Parent)) == resolved(v),
        resolved(v.push(PartView::Current)) == resolved(v),
        resolved(v.push(PartView::Root).push(PartView::Parent)) == resolved(v.push(PartView::Root)),
        resolved(v.push(PartView::Normal(name))) == resolved(v).push(PartView::Normal(name)),
{
    let a = v.push(PartView::Normal(name));
    assert(a.drop_last() =~= v);
    assert(a.push(PartView::Parent).drop_last() =~= a);
    assert(resolved(a) == resolved(v).push(PartView::Normal(name)));
    assert(resolved(a.push(PartView::Parent)) == stepped_up(resolved(a)));
    assert(resolved(v).push(PartView::Normal(name)).drop_last() =~= resolved(v));
    assert(v.push(PartView::Current).drop_last() =~= v);
    let r = v.push(PartView::Root);
    assert(r.drop_last() =~= v);
    assert(r.push(PartView::Parent).drop_last() =~= r);
    assert(resolved(r) == resolved(v).push(PartView::Root));
    assert(resolved(r.push(PartView::Parent)) == stepped_up(resolved(r)));
}

/// On Windows both kinds of separator make one key; elsewhere a key is the
/// path as it is.
pub proof fn lemma_separators_share_a_key(normal: Seq<char>)
    ensures
        folded(replaced(normal, '/', '\\'), true) == folded(normal, true),
        folded(normal, false) == normal,
        replaced(normal, '/', '\\').len() == normal.len(),
        forall|i: int|
            0 <= i < normal.len() ==> #[trigger] replaced(normal, '/', '\\')[i] == (if normal[i] == '/' {
                '\\'
            } else {
                normal[i]
            }),
{
    assert(replaced(replaced(normal, '/', '\\'), '/', '\\') =~= replaced(normal, '/', '\\'));
}

/// A name is an end of its path: its pieces are the last ones of it.
pub proof fn lemma_names_are_ends(v: Seq<Seq<char>>, n: int, i: int)
    requires
        0 <= n <= v.len(),
        0 <= i < n,
    ensures
        tail(v, n).len() == n,
        tail(v, n)[i] == v[v.len() - n + i],
{
}

} // verus!
