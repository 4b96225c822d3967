//! Text as sequences of characters: lines, tokens, trimming, joining,
//! decimal numbers.
use vstd::prelude::*;
use vstd::string::{StrSliceExecFns, StringExecFns};

verus! {

/// `String::push` appends one character.
pub assume_specification[ String::push ](s: &mut String, c: char)
    ensures
        final(s)@ == old(s)@.push(c),
;

/// The characters of each string.
pub open spec fn texts(v: Seq<String>) -> Seq<Seq<char>> {
    v.map_values(|s: String| s@)
}

/// Unicode `White_Space`.
pub open spec fn is_space(c: char) -> bool {
    ||| '\u{9}' <= c <= '\u{d}'
    ||| c == ' '
    ||| c == '\u{85}'
    ||| c == '\u{a0}'
    ||| c == '\u{1680}'
    ||| '\u{2000}' <= c <= '\u{200a}'
    ||| c == '\u{2028}'
    ||| c == '\u{2029}'
    ||| c == '\u{202f}'
    ||| c == '\u{205f}'
    ||| c == '\u{3000}'
}

pub fn space(c: char) -> (r: bool)
    ensures
        r == is_space(c),
{
    ('\u{9}' <= c && c <= '\u{d}') || c == ' ' || c == '\u{85}' || c == '\u{a0}' || c == '\u{1680}'
        || ('\u{2000}' <= c && c <= '\u{200a}') || c == '\u{2028}' || c == '\u{2029}' || c
        == '\u{202f}' || c == '\u{205f}' || c == '\u{3000}'
}

pub fn chars_of(s: &str) -> (v: Vec<char>)
    ensures
        v@ == s@,
{
    let mut v: Vec<char> = Vec::new();
    for c in it: s.chars()
        invariant
            it.seq() == s@,
            v@ == s@.take(it.index() as int),
    {
        v.push(c);
    }
    v
}

pub fn string_of(v: &Vec<char>, from: usize, to: usize) -> (s: String)
    requires
        from <= to <= v@.len(),
    ensures
        s@ == v@.subrange(from as int, to as int),
{
    let mut s = String::new();
    let mut i: usize = from;
    while i < to
        invariant
            from <= i <= to <= v@.len(),
            s@ == v@.subrange(from as int, i as int),
        decreases to - i,
    {
        s.push(v[i]);
        i += 1;
    }
    s
}

pub fn same(a: &str, b: &str) -> (r: bool)
    ensures
        r == (a@ == b@),
{
    a.to_owned() == b.to_owned()
}

/// Appends a copy of `s` to a list of strings.
pub fn put(v: &mut Vec<String>, s: &str)
    ensures
        texts(final(v)@) == texts(old(v)@).push(s@),
        final(v)@.len() == old(v)@.len() + 1,
{
    v.push(s.to_owned());
    assert(texts(v@) =~= texts(old(v)@).push(s@));
}

/// Appends copies of all of `more` to a list of strings.
pub fn put_all(v: &mut Vec<String>, more: &Vec<String>)
    ensures
        texts(final(v)@) == texts(old(v)@) + texts(more@),
{
    let mut i: usize = 0;
    assert(texts(more@.take(0)) =~= Seq::<Seq<char>>::empty());
    assert(texts(v@) =~= texts(old(v)@) + texts(more@.take(0)));
    while i < more.len()
        invariant
            i <= more@.len(),
            texts(v@) == texts(old(v)@) + texts(more@.take(i as int)),
        decreases more.len() - i,
    {
        put(v, more[i].as_str());
        i += 1;
        assert(texts(more@.take(i as int)) =~= texts(more@.take(i - 1)).push(more@[i - 1]@));
        assert(texts(v@) =~= texts(old(v)@) + texts(more@.take(i as int)));
    }
    assert(more@.take(i as int) =~= more@);
}

/// A copy of a list of strings.
pub fn copy_all(v: &Vec<String>) -> (r: Vec<String>)
    ensures
        texts(r@) == texts(v@),
{
    let mut r: Vec<String> = Vec::new();
    put_all(&mut r, v);
    assert(texts(r@) =~= texts(v@));
    r
}

/// Whether two lists hold the same texts in the same order.
pub fn same_all(a: &Vec<String>, b: &Vec<String>) -> (r: bool)
    ensures
        r == (texts(a@) == texts(b@)),
{
    if a.len() != b.len() {
        assert(texts(a@).len() != texts(b@).len());
        return false;
    }
    let mut i: usize = 0;
    while i < a.len()
        invariant
            i <= a@.len(),
            a@.len() == b@.len(),
            forall|j: int| 0 <= j < i ==> #[trigger] a@[j]@ == b@[j]@,
        decreases a.len() - i,
    {
        if !same(a[i].as_str(), b[i].as_str()) {
            assert(texts(a@)[i as int] != texts(b@)[i as int]);
            return false;
        }
        i += 1;
    }
    assert(texts(a@) =~= texts(b@));
    true
}

/// Whether a list holds the text `s`.
pub fn has(v: &Vec<String>, s: &str) -> (r: bool)
    ensures
        r == texts(v@).contains(s@),
{
    let mut i: usize = 0;
    while i < v.len()
        invariant
            i <= v@.len(),
            forall|j: int| 0 <= j < i ==> #[trigger] v@[j]@ != s@,
        decreases v.len() - i,
    {
        if same(v[i].as_str(), s) {
            assert(texts(v@)[i as int] == s@);
            return true;
        }
        i += 1;
    }
    assert forall|j: int| 0 <= j < texts(v@).len() implies texts(v@)[j] != s@ by {
        assert(texts(v@)[j] == v@[j]@);
    }
    false
}

/// The length of the longest prefix whose characters all satisfy `p`.
pub open spec fn prefix_len(s: Seq<char>, p: spec_fn(char) -> bool) -> nat
    decreases s.len(),
{
    if s.len() > 0 && p(s[0]) {
        1 + prefix_len(s.skip(1), p)
    } else {
        0
    }
}

/// `prefix_len` is the one length that such a prefix can have.
pub proof fn lemma_prefix_len(s: Seq<char>, p: spec_fn(char) -> bool)
    ensures
        prefix_len(s, p) <= s.len(),
        forall|i: int| 0 <= i < prefix_len(s, p) ==> p(#[trigger] s[i]),
        prefix_len(s, p) < s.len() ==> !p(s[prefix_len(s, p) as int]),
    decreases s.len(),
{
    if s.len() > 0 && p(s[0]) {
        let t = s.skip(1);
        lemma_prefix_len(t, p);
        assert forall|i: int| 0 <= i < prefix_len(s, p) implies p(#[trigger] s[i]) by {
            if i > 0 {
                assert(t[i - 1] == s[i]);
            }
        }
        if prefix_len(s, p) < s.len() {
            assert(t[prefix_len(t, p) as int] == s[prefix_len(s, p) as int]);
        }
    }
}

pub proof fn lemma_prefix_len_is(s: Seq<char>, p: spec_fn(char) -> bool, k: int)
    requires
        0 <= k <= s.len(),
        forall|i: int| 0 <= i < k ==> p(#[trigger] s[i]),
        k < s.len() ==> !p(s[k]),
    ensures
        prefix_len(s, p) == k,
{
    lemma_prefix_len(s, p);
    let n = prefix_len(s, p) as int;
    if n < k {
        assert(p(s[n]));
    } else if k < n {
        assert(p(s[k]));
    }
}

// ---- Trimming ----

pub open spec fn trim_start(s: Seq<char>) -> Seq<char> {
    s.skip(prefix_len(s, |c: char| is_space(c)) as int)
}

pub open spec fn trim_end(s: Seq<char>) -> Seq<char>
    decreases s.len(),
{
    if s.len() > 0 && is_space(s.last()) {
        trim_end(s.drop_last())
    } else {
        s
    }
}

/// The text without the white space at both ends.
pub open spec fn trim(s: Seq<char>) -> Seq<char> {
    trim_end(trim_start(s))
}

/// Whether nothing but white space is in the text.
pub open spec fn blank(s: Seq<char>) -> bool {
    forall|i: int| 0 <= i < s.len() ==> is_space(#[trigger] s[i])
}

pub proof fn lemma_trim_end(s: Seq<char>)
    ensures
        trim_end(s).len() <= s.len(),
        trim_end(s) == s.take(trim_end(s).len() as int),
        forall|i: int| trim_end(s).len() <= i < s.len() ==> is_space(#[trigger] s[i]),
        trim_end(s).len() > 0 ==> !is_space(trim_end(s).last()),
    decreases s.len(),
{
    if s.len() > 0 && is_space(s.last()) {
        let t = s.drop_last();
        lemma_trim_end(t);
        assert(s.take(trim_end(t).len() as int) =~= t.take(trim_end(t).len() as int));
        assert forall|i: int| trim_end(s).len() <= i < s.len() implies is_space(#[trigger] s[i]) by {
            if i < t.len() {
                assert(t[i] == s[i]);
            }
        }
    } else {
        assert(s.take(s.len() as int) =~= s);
    }
}

/// Trimming leaves nothing exactly when the text is blank.
pub proof fn lemma_trim_blank(s: Seq<char>)
    ensures
        (trim(s).len() == 0) == blank(s),
{
    let p = |c: char| is_space(c);
    lemma_prefix_len(s, p);
    let n = prefix_len(s, p) as int;
    let t = trim_start(s);
    lemma_trim_end(t);
    if blank(s) {
        if n < s.len() {
            assert(is_space(s[n]));
        }
    } else if trim(s).len() == 0 {
        assert forall|i: int| 0 <= i < s.len() implies is_space(#[trigger] s[i]) by {
            if i < n {
                assert(p(s[i]));
            } else {
                assert(t[i - n] == s[i]);
            }
        }
    }
}

fn skip_space(v: &Vec<char>, from: usize) -> (i: usize)
    requires
        from <= v@.len(),
    ensures
        from <= i <= v@.len(),
        i - from == prefix_len(v@.skip(from as int), |c: char| is_space(c)),
{
    let mut i: usize = from;
    while i < v.len() && space(v[i])
        invariant
            from <= i <= v@.len(),
            forall|j: int| from <= j < i ==> is_space(#[trigger] v@[j]),
        decreases v.len() - i,
    {
        i += 1;
    }
    proof {
        lemma_prefix_len_is(v@.skip(from as int), |c: char| is_space(c), i - from);
    }
    i
}

fn skip_word(v: &Vec<char>, from: usize) -> (i: usize)
    requires
        from <= v@.len(),
    ensures
        from <= i <= v@.len(),
        i - from == prefix_len(v@.skip(from as int), |c: char| !is_space(c)),
{
    let mut i: usize = from;
    while i < v.len() && !space(v[i])
        invariant
            from <= i <= v@.len(),
            forall|j: int| from <= j < i ==> !is_space(#[trigger] v@[j]),
        decreases v.len() - i,
    {
        i += 1;
    }
    proof {
        lemma_prefix_len_is(v@.skip(from as int), |c: char| !is_space(c), i - from);
    }
    i
}

fn cut_space(v: &Vec<char>, from: usize, to: usize) -> (i: usize)
    requires
        from <= to <= v@.len(),
    ensures
        from <= i <= to,
        v@.subrange(from as int, i as int) == trim_end(v@.subrange(from as int, to as int)),
{
    let mut i: usize = to;
    while i > from && space(v[i - 1])
        invariant
            from <= i <= to <= v@.len(),
            trim_end(v@.subrange(from as int, i as int)) == trim_end(
                v@.subrange(from as int, to as int),
            ),
        decreases i,
    {
        i -= 1;
        assert(v@.subrange(from as int, i + 1).drop_last() =~= v@.subrange(from as int, i as int));
    }
    i
}

/// `str::trim`.
pub fn trimmed(s: &str) -> (r: String)
    ensures
        r@ == trim(s@),
{
    let v = chars_of(s);
    let a: usize = skip_space(&v, 0);
    let b: usize = cut_space(&v, a, v.len());
    assert(v@.skip(0) =~= v@);
    assert(v@.skip(a as int) =~= v@.subrange(a as int, v@.len() as int));
    string_of(&v, a, b)
}

/// `str::trim_start`.
pub fn trimmed_start(s: &str) -> (r: String)
    ensures
        r@ == trim_start(s@),
{
    let v = chars_of(s);
    let a: usize = skip_space(&v, 0);
    assert(v@.skip(0) =~= v@);
    assert(v@.skip(a as int) =~= v@.subrange(a as int, v@.len() as int));
    string_of(&v, a, v.len())
}

/// `str::trim_end`.
pub fn trimmed_end(s: &str) -> (r: String)
    ensures
        r@ == trim_end(s@),
{
    let v = chars_of(s);
    let b: usize = cut_space(&v, 0, v.len());
    assert(v@.subrange(0, v@.len() as int) =~= v@);
    string_of(&v, 0, b)
}

/// Whether the text is empty but for white space.
pub fn is_blank(s: &str) -> (r: bool)
    ensures
        r == blank(s@),
{
    proof {
        lemma_trim_blank(s@);
    }
    trimmed(s).as_str().is_empty()
}

// ---- Lines and words ----

pub open spec fn strip_cr(s: Seq<char>) -> Seq<char> {
    if s.len() > 0 && s.last() == '\r' {
        s.drop_last()
    } else {
        s
    }
}

/// The lines of a text: each ends before `\n` or `\r\n`, and the last may
/// go without.
pub open spec fn lines(s: Seq<char>) -> Seq<Seq<char>>
    decreases s.len(),
{
    if s.len() == 0 {
        Seq::empty()
    } else {
        let k = prefix_len(s, |c: char| c != '\n') as int;
        if k < s.len() {
            seq![strip_cr(s.take(k))] + lines(s.skip(k + 1))
        } else {
            seq![s]
        }
    }
}

/// `str::lines`.
pub fn lines_of(s: &str) -> (r: Vec<String>)
    ensures
        texts(r@) == lines(s@),
{
    let v = chars_of(s);
    let mut r: Vec<String> = Vec::new();
    let mut i: usize = 0;
    assert(v@.skip(0) =~= v@);
    assert(texts(r@) + lines(v@) =~= lines(v@));
    while i < v.len()
        invariant
            i <= v@.len(),
            texts(r@) + lines(v@.skip(i as int)) == lines(v@),
        decreases v.len() - i,
    {
        let ghost rest = v@.skip(i as int);
        let ghost r0 = texts(r@);
        let mut k: usize = i;
        while k < v.len() && v[k] != '\n'
            invariant
                i <= k <= v@.len(),
                forall|j: int| i <= j < k ==> #[trigger] v@[j] != '\n',
            decreases v.len() - k,
        {
            k += 1;
        }
        proof {
            lemma_prefix_len_is(rest, |c: char| c != '\n', k - i);
        }
        if k < v.len() {
            let end: usize = if k > i && v[k - 1] == '\r' {
                k - 1
            } else {
                k
            };
            let line = string_of(&v, i, end);
            assert(rest.take(k - i) =~= v@.subrange(i as int, k as int));
            assert(v@.subrange(i as int, end as int) =~= strip_cr(rest.take(k - i)));
            put(&mut r, line.as_str());
            assert(rest.skip(k - i + 1) =~= v@.skip(k + 1));
            assert(r0.push(line@) + lines(v@.skip(k + 1)) =~= r0 + lines(rest));
            i = k + 1;
        } else {
            let line = string_of(&v, i, k);
            assert(rest =~= v@.subrange(i as int, k as int));
            put(&mut r, line.as_str());
            assert(v@.skip(k as int).len() == 0);
            assert(r0.push(line@) + lines(v@.skip(k as int)) =~= r0 + lines(rest));
            i = k;
        }
    }
    assert(texts(r@) + lines(v@.skip(i as int)) =~= texts(r@));
    r
}

/// The words of a text: what stands between runs of white space.
pub open spec fn words(s: Seq<char>) -> Seq<Seq<char>>
    decreases s.len(),
{
    let t = trim_start(s);
    if t.len() == 0 || s.len() < t.len() {
        Seq::empty()
    } else {
        let k = prefix_len(t, |c: char| !is_space(c)) as int;
        if 0 < k <= t.len() {
            seq![t.take(k)] + words(t.skip(k))
        } else {
            Seq::empty()
        }
    }
}

/// `str::split_whitespace`.
pub fn words_of(s: &str) -> (r: Vec<String>)
    ensures
        texts(r@) == words(s@),
{
    let v = chars_of(s);
    let mut r: Vec<String> = Vec::new();
    let mut i: usize = 0;
    assert(v@.skip(0) =~= v@);
    assert(texts(r@) + words(v@) =~= words(v@));
    while i < v.len()
        invariant
            i <= v@.len(),
            texts(r@) + words(v@.skip(i as int)) == words(v@),
        decreases v.len() - i,
    {
        let ghost rest = v@.skip(i as int);
        let ghost r0 = texts(r@);
        let a: usize = skip_space(&v, i);
        let ghost t = v@.skip(a as int);
        assert(trim_start(rest) =~= t);
        if a == v.len() {
            assert(words(rest) =~= Seq::empty());
            assert(words(v@.skip(a as int)) =~= Seq::empty());
            i = a;
        } else {
            let b: usize = skip_word(&v, a);
            proof {
                lemma_prefix_len(rest, |c: char| is_space(c));
                lemma_prefix_len(t, |c: char| !is_space(c));
                assert(t[0] == rest[a - i]);
                if b == a {
                    assert(is_space(t[0]));
                }
            }
            let word = string_of(&v, a, b);
            assert(t.take(b - a) =~= v@.subrange(a as int, b as int));
            assert(t.skip(b - a) =~= v@.skip(b as int));
            put(&mut r, word.as_str());
            assert(r0.push(word@) + words(v@.skip(b as int)) =~= r0 + words(rest));
            i = b;
        }
    }
    assert(words(v@.skip(i as int)) =~= Seq::empty());
    assert(texts(r@) + words(v@.skip(i as int)) =~= texts(r@));
    r
}

/// Any character but `c`.
pub open spec fn other_than(c: char) -> spec_fn(char) -> bool {
    |x: char| x != c
}

/// The pieces of a text between the occurrences of a character.
pub open spec fn split_on(s: Seq<char>, c: char) -> Seq<Seq<char>>
    decreases s.len(),
{
    let k = prefix_len(s, other_than(c)) as int;
    if k < s.len() {
        seq![s.take(k)] + split_on(s.skip(k + 1), c)
    } else {
        seq![s]
    }
}

/// `str::split` at a character.
pub fn split_of(s: &str, c: char) -> (r: Vec<String>)
    ensures
        texts(r@) == split_on(s@, c),
{
    let v = chars_of(s);
    let mut r: Vec<String> = Vec::new();
    let mut i: usize = 0;
    assert(v@.skip(0) =~= v@);
    assert(texts(r@) + split_on(v@, c) =~= split_on(v@, c));
    loop
        invariant
            i <= v@.len(),
            v@ == s@,
            texts(r@) + split_on(v@.skip(i as int), c) == split_on(v@, c),
        decreases v.len() - i,
    {
        let ghost rest = v@.skip(i as int);
        let ghost r0 = texts(r@);
        let mut k: usize = i;
        while k < v.len() && v[k] != c
            invariant
                i <= k <= v@.len(),
                forall|j: int| i <= j < k ==> #[trigger] v@[j] != c,
            decreases v.len() - k,
        {
            k += 1;
        }
        proof {
            lemma_prefix_len_is(rest, other_than(c), k - i);
        }
        let piece = string_of(&v, i, k);
        put(&mut r, piece.as_str());
        if k < v.len() {
            assert(rest.take(k - i) =~= v@.subrange(i as int, k as int));
            assert(rest.skip(k - i + 1) =~= v@.skip(k + 1));
            assert(r0.push(piece@) + split_on(v@.skip(k + 1), c) =~= r0 + split_on(rest, c));
            i = k + 1;
        } else {
            assert(rest =~= v@.subrange(i as int, k as int));
            assert(r0.push(piece@) =~= r0 + split_on(rest, c));
            return r;
        }
    }
}

/// The lines of a text, each trimmed, without the empty ones.
pub open spec fn full_lines(s: Seq<char>) -> Seq<Seq<char>> {
    lines(s).map_values(|l: Seq<char>| trim(l)).filter(|l: Seq<char>| l.len() > 0)
}

pub fn full_lines_of(s: &str) -> (r: Vec<String>)
    ensures
        texts(r@) == full_lines(s@),
{
    let all = lines_of(s);
    let mut r: Vec<String> = Vec::new();
    let mut i: usize = 0;
    let ghost trims = lines(s@).map_values(|l: Seq<char>| trim(l));
    let ghost keep = |l: Seq<char>| l.len() > 0;
    assert(trims.take(0).filter(keep) =~= Seq::<Seq<char>>::empty()) by {
        reveal(Seq::filter);
    }
    while i < all.len()
        invariant
            i <= all@.len(),
            texts(all@) == lines(s@),
            trims == lines(s@).map_values(|l: Seq<char>| trim(l)),
            keep == (|l: Seq<char>| l.len() > 0),
            texts(r@) == trims.take(i as int).filter(keep),
        decreases all.len() - i,
    {
        let t = trimmed(all[i].as_str());
        assert(all@[i as int]@ == texts(all@)[i as int]);
        assert(t@ == trims[i as int]);
        assert(trims.take(i + 1).drop_last() =~= trims.take(i as int));
        proof {
            reveal(Seq::filter);
        }
        if !t.as_str().is_empty() {
            put(&mut r, t.as_str());
        }
        i += 1;
    }
    assert(trims.take(i as int) =~= trims);
    r
}

// ---- Searching ----

/// Whether `n` occurs in `h` at `i`.
pub open spec fn occurs_at(h: Seq<char>, n: Seq<char>, i: int) -> bool {
    0 <= i && i + n.len() <= h.len() && h.subrange(i, i + n.len()) == n
}

pub open spec fn contains(h: Seq<char>, n: Seq<char>) -> bool {
    exists|i: int| occurs_at(h, n, i)
}

pub open spec fn starts_with(s: Seq<char>, p: Seq<char>) -> bool {
    occurs_at(s, p, 0)
}

fn match_at(h: &Vec<char>, n: &Vec<char>, i: usize) -> (r: bool)
    requires
        i <= h@.len(),
    ensures
        r == occurs_at(h@, n@, i as int),
{
    let room: usize = h.len() - i;
    if n.len() > room {
        return false;
    }
    let mut k: usize = 0;
    while k < n.len()
        invariant
            k <= n@.len() <= room,
            i + room == h@.len() <= usize::MAX,
            forall|j: int| 0 <= j < k ==> h@[i + j] == #[trigger] n@[j],
        decreases n.len() - k,
    {
        if h[i + k] != n[k] {
            assert(h@.subrange(i as int, i + n@.len())[k as int] != n@[k as int]);
            return false;
        }
        k += 1;
    }
    assert(h@.subrange(i as int, i + n@.len()) =~= n@);
    true
}

/// `str::contains` with a text.
pub fn holds(h: &str, n: &str) -> (r: bool)
    ensures
        r == contains(h@, n@),
{
    let hv = chars_of(h);
    let nv = chars_of(n);
    let mut i: usize = 0;
    while i < hv.len()
        invariant
            i <= hv@.len(),
            hv@ == h@,
            nv@ == n@,
            forall|j: int| 0 <= j < i ==> !#[trigger] occurs_at(h@, n@, j),
        decreases hv.len() - i,
    {
        if match_at(&hv, &nv, i) {
            return true;
        }
        i += 1;
    }
    let last = match_at(&hv, &nv, i);
    assert(last ==> contains(h@, n@));
    last
}

/// `str::starts_with` with a text.
pub fn begins(s: &str, p: &str) -> (r: bool)
    ensures
        r == starts_with(s@, p@),
{
    let sv = chars_of(s);
    let pv = chars_of(p);
    match_at(&sv, &pv, 0)
}

/// The last place at which `n` occurs in `h`.
pub open spec fn last_at(h: Seq<char>, n: Seq<char>) -> Option<int> {
    if contains(h, n) {
        Some(choose|i: int| occurs_at(h, n, i) && forall|j: int| i < j ==> !occurs_at(h, n, j))
    } else {
        None
    }
}

pub proof fn lemma_last_at(h: Seq<char>, n: Seq<char>, i: int)
    requires
        occurs_at(h, n, i),
        forall|j: int| i < j ==> !occurs_at(h, n, j),
    ensures
        last_at(h, n) == Some(i),
{
    assert(contains(h, n));
    let k = choose|k: int| occurs_at(h, n, k) && forall|j: int| k < j ==> !occurs_at(h, n, j);
    assert(k == i);
}

/// The index at which the last occurrence of `n` starts, in characters.
pub fn find_last(h: &Vec<char>, n: &Vec<char>) -> (r: Option<usize>)
    ensures
        match r {
            Some(i) => last_at(h@, n@) == Some(i as int) && occurs_at(h@, n@, i as int),
            None => last_at(h@, n@) is None,
        },
{
    let mut i: usize = h.len();
    loop
        invariant
            i <= h@.len(),
            forall|j: int| i < j ==> !#[trigger] occurs_at(h@, n@, j),
        decreases i,
    {
        if match_at(h, n, i) {
            proof {
                lemma_last_at(h@, n@, i as int);
            }
            return Some(i);
        }
        if i == 0 {
            assert(!contains(h@, n@));
            return None;
        }
        i -= 1;
    }
}

/// What stands before the first occurrence of `n`; all of `h` where there is
/// none.
pub open spec fn before_first(h: Seq<char>, n: Seq<char>, from: int) -> Seq<char>
    decreases h.len() - from,
{
    if from >= h.len() {
        if occurs_at(h, n, from) {
            h.take(from)
        } else {
            h
        }
    } else if occurs_at(h, n, from) {
        h.take(from)
    } else {
        before_first(h, n, from + 1)
    }
}

/// The head that `str::split_once` gives, or the whole text.
pub fn head_before(h: &str, n: &str) -> (r: String)
    ensures
        r@ == before_first(h@, n@, 0),
{
    let hv = chars_of(h);
    let nv = chars_of(n);
    let mut i: usize = 0;
    while i < hv.len()
        invariant
            i <= hv@.len(),
            hv@ == h@,
            nv@ == n@,
            before_first(h@, n@, i as int) == before_first(h@, n@, 0),
        decreases hv.len() - i,
    {
        if match_at(&hv, &nv, i) {
            let s = string_of(&hv, 0, i);
            assert(s@ =~= h@.take(i as int));
            return s;
        }
        i += 1;
    }
    assert(h@.take(h@.len() as int) =~= h@);
    h.to_owned()
}

/// The first `n` characters of a text, or all of it where it is shorter.
pub open spec fn first_chars(s: Seq<char>, n: int) -> Seq<char> {
    if s.len() <= n {
        s
    } else {
        s.take(n)
    }
}

pub fn first_chars_of(s: &str, n: usize) -> (r: String)
    ensures
        r@ == first_chars(s@, n as int),
{
    let v = chars_of(s);
    let end: usize = if v.len() <= n {
        v.len()
    } else {
        n
    };
    let r = string_of(&v, 0, end);
    assert(r@ =~= first_chars(s@, n as int));
    r
}

// ---- Joining ----

/// The texts in order, with `sep` between neighbours.
pub open spec fn join(parts: Seq<Seq<char>>, sep: Seq<char>) -> Seq<char>
    decreases parts.len(),
{
    if parts.len() == 0 {
        Seq::empty()
    } else if parts.len() == 1 {
        parts[0]
    } else {
        join(parts.drop_last(), sep) + sep + parts.last()
    }
}

/// `[String]::join`.
pub fn joined(parts: &Vec<String>, sep: &str) -> (r: String)
    ensures
        r@ == join(texts(parts@), sep@),
{
    let mut r = String::new();
    let mut i: usize = 0;
    assert(texts(parts@).take(0) =~= Seq::<Seq<char>>::empty());
    while i < parts.len()
        invariant
            i <= parts@.len(),
            r@ == join(texts(parts@).take(i as int), sep@),
        decreases parts.len() - i,
    {
        if i > 0 {
            r.append(sep);
        }
        r.append(parts[i].as_str());
        let ghost next = texts(parts@).take(i + 1);
        assert(next.drop_last() =~= texts(parts@).take(i as int));
        assert(next.last() == parts@[i as int]@);
        if i == 0 {
            assert(r@ =~= next[0]);
        }
        i += 1;
    }
    assert(texts(parts@).take(i as int) =~= texts(parts@));
    r
}

/// A text without a character.
pub open spec fn free_of(s: Seq<char>, c: char) -> bool {
    forall|i: int| 0 <= i < s.len() ==> #[trigger] s[i] != c
}

proof fn lemma_split_last(s: Seq<char>, c: char, t: Seq<char>)
    requires
        free_of(t, c),
    ensures
        split_on(s + seq![c] + t, c) == split_on(s, c).push(t),
    decreases s.len(),
{
    let p = other_than(c);
    let all = s + seq![c] + t;
    let k = prefix_len(s, p) as int;
    lemma_prefix_len(s, p);
    assert forall|i: int| 0 <= i < k implies p(#[trigger] all[i]) by {
        assert(all[i] == s[i]);
    }
    if k < s.len() {
        assert(all[k] == s[k]);
        lemma_prefix_len_is(all, p, k);
        assert(all.take(k) =~= s.take(k));
        assert(all.skip(k + 1) =~= s.skip(k + 1) + seq![c] + t);
        lemma_split_last(s.skip(k + 1), c, t);
        assert(split_on(all, c) =~= split_on(s, c).push(t));
    } else {
        assert(all[k] == c);
        lemma_prefix_len_is(all, p, k);
        assert(all.take(k) =~= s);
        assert(all.skip(k + 1) =~= t);
        lemma_prefix_len_is(t, p, t.len() as int);
        assert(split_on(t, c) =~= seq![t]);
        assert(split_on(all, c) =~= split_on(s, c).push(t));
    }
}

/// Splitting undoes joining: texts that are joined by a character that none of
/// them holds come back when the whole is split at it.
pub proof fn lemma_split_undoes_join(parts: Seq<Seq<char>>, c: char)
    requires
        parts.len() > 0,
        forall|i: int| 0 <= i < parts.len() ==> free_of(#[trigger] parts[i], c),
    ensures
        split_on(join(parts, seq![c]), c) == parts,
    decreases parts.len(),
{
    if parts.len() == 1 {
        lemma_prefix_len_is(parts[0], other_than(c), parts[0].len() as int);
        assert(split_on(parts[0], c) =~= parts);
    } else {
        let front = parts.drop_last();
        assert forall|i: int| 0 <= i < front.len() implies free_of(#[trigger] front[i], c) by {
            assert(front[i] == parts[i]);
        }
        lemma_split_undoes_join(front, c);
        lemma_split_last(join(front, seq![c]), c, parts.last());
        assert(front.push(parts.last()) =~= parts);
    }
}

// ---- Decimal numbers ----

pub open spec fn is_digit(c: char) -> bool {
    '0' <= c <= '9'
}

pub open spec fn digit_char(d: int) -> char {
    (48 + d) as char
}

pub open spec fn digit_value(c: char) -> int {
    c as int - 48
}

/// The decimal digits of `n`.
pub open spec fn dec(n: nat) -> Seq<char>
    decreases n,
{
    if n < 10 {
        seq![digit_char(n as int)]
    } else {
        dec(n / 10).push(digit_char((n % 10) as int))
    }
}

/// The decimal digits of `i`, after a minus sign where it is negative.
pub open spec fn dec_int(i: int) -> Seq<char> {
    if i < 0 {
        seq!['-'] + dec((-i) as nat)
    } else {
        dec(i as nat)
    }
}

/// `u64::to_string`.
pub fn dec_u64(n: u64) -> (s: String)
    ensures
        s@ == dec(n as nat),
    decreases n,
{
    let c: char = (48u8 + (n % 10) as u8) as char;
    if n < 10 {
        let mut s = String::new();
        s.push(c);
        assert(s@ =~= dec(n as nat));
        s
    } else {
        let mut s = dec_u64(n / 10);
        s.push(c);
        s
    }
}

pub fn dec_usize(n: usize) -> (s: String)
    ensures
        s@ == dec(n as nat),
{
    dec_u64(n as u64)
}

/// `i64::to_string`.
pub fn dec_i64(i: i64) -> (s: String)
    ensures
        s@ == dec_int(i as int),
{
    if i < 0 {
        let mut s = String::new();
        s.push('-');
        let m: u64 = (-(i as i128)) as u64;
        let d = dec_u64(m);
        s.append(d.as_str());
        assert(s@ =~= dec_int(i as int));
        s
    } else {
        dec_u64(i as u64)
    }
}

/// `k` zeros.
pub open spec fn zeros(k: int) -> Seq<char>
    decreases k,
{
    if k <= 0 {
        Seq::empty()
    } else {
        zeros(k - 1).push('0')
    }
}

/// The decimal digits of `n`, with zeros before them up to `width` characters.
pub open spec fn padded(n: nat, width: int) -> Seq<char> {
    zeros(width - dec(n).len()) + dec(n)
}

pub fn padded_of(n: usize, width: usize) -> (s: String)
    ensures
        s@ == padded(n as nat, width as int),
{
    let d = dec_usize(n);
    let len: usize = d.as_str().unicode_len();
    let mut s = String::new();
    if len < width {
        let mut k: usize = 0;
        while k < width - len
            invariant
                k <= width - len,
                len < width,
                s@ == zeros(k as int),
            decreases width - len - k,
        {
            s.push('0');
            k += 1;
        }
    }
    s.append(d.as_str());
    s
}

/// The value of a run of decimal digits.
pub open spec fn digits_value(s: Seq<char>) -> nat
    decreases s.len(),
{
    if s.len() == 0 {
        0
    } else {
        (digits_value(s.drop_last()) * 10 + digit_value(s.last())) as nat
    }
}

pub open spec fn all_digits(s: Seq<char>) -> bool {
    forall|i: int| 0 <= i < s.len() ==> is_digit(#[trigger] s[i])
}

/// What an unsigned integer type with the greatest value `max` parses a text to.
pub open spec fn parse_nat(s: Seq<char>, max: nat) -> Option<nat> {
    let t = if s.len() > 0 && s[0] == '+' {
        s.skip(1)
    } else {
        s
    };
    if t.len() > 0 && all_digits(t) && digits_value(t) <= max {
        Some(digits_value(t))
    } else {
        None
    }
}

proof fn lemma_dec_digits(n: nat)
    ensures
        dec(n).len() > 0,
        all_digits(dec(n)),
        digits_value(dec(n)) == n,
    decreases n,
{
    if n < 10 {
        assert(dec(n).drop_last() =~= Seq::<char>::empty());
        assert(digits_value(Seq::<char>::empty()) == 0);
    } else {
        lemma_dec_digits(n / 10);
        assert(dec(n).drop_last() =~= dec(n / 10));
    }
}

/// A number reads back as it was written.
pub proof fn lemma_parse_dec(n: nat, max: nat)
    requires
        n <= max,
    ensures
        parse_nat(dec(n), max) == Some(n),
{
    lemma_dec_digits(n);
    assert(is_digit(dec(n)[0]));
}

/// What a signed integer type with the least value `min` and the greatest
/// value `max` parses a text to.
pub open spec fn parse_int(s: Seq<char>, min: int, max: int) -> Option<int> {
    if s.len() > 0 && s[0] == '-' {
        let t = s.skip(1);
        if t.len() > 0 && all_digits(t) && -digits_value(t) >= min {
            Some(-digits_value(t))
        } else {
            None
        }
    } else {
        match parse_nat(s, max as nat) {
            Some(n) => Some(n as int),
            None => None,
        }
    }
}

proof fn lemma_digits_value_grows(s: Seq<char>, k: int)
    requires
        0 <= k <= s.len(),
        all_digits(s),
    ensures
        digits_value(s.take(k)) <= digits_value(s),
    decreases s.len() - k,
{
    if k < s.len() {
        lemma_digits_value_grows(s, k + 1);
        assert(s.take(k + 1).drop_last() =~= s.take(k));
        assert(is_digit(s[k]));
    } else {
        assert(s.take(k) =~= s);
    }
}

fn digits_from(v: &Vec<char>, from: usize, max: u64) -> (r: Option<u64>)
    requires
        from <= v@.len(),
    ensures
        ({
            let t = v@.skip(from as int);
            match r {
                Some(n) => t.len() > 0 && all_digits(t) && digits_value(t) == n && n <= max,
                None => !(t.len() > 0 && all_digits(t) && digits_value(t) <= max),
            }
        }),
{
    let ghost t = v@.skip(from as int);
    if from == v.len() {
        return None;
    }
    let mut i: usize = from;
    let mut acc: u64 = 0;
    assert(t.take(0) =~= Seq::<char>::empty());
    while i < v.len()
        invariant
            from <= i <= v@.len(),
            t == v@.skip(from as int),
            acc == digits_value(t.take(i - from)),
            acc <= max,
            all_digits(t.take(i - from)),
        decreases v.len() - i,
    {
        let c = v[i];
        assert(t[i - from] == c);
        if !('0' <= c && c <= '9') {
            assert(!is_digit(t[i - from]));
            return None;
        }
        let d: u64 = c as u64 - 48;
        let ghost k = i - from;
        assert(t.take(k + 1).drop_last() =~= t.take(k));
        assert(digits_value(t.take(k + 1)) == acc * 10 + d);
        if acc > max / 10 || d > max - acc * 10 {
            proof {
                if all_digits(t) {
                    lemma_digits_value_grows(t, k + 1);
                }
            }
            return None;
        }
        acc = acc * 10 + d;
        assert forall|j: int| 0 <= j < k + 1 implies is_digit(#[trigger] t.take(k + 1)[j]) by {
            if j < k {
                assert(t.take(k)[j] == t.take(k + 1)[j]);
            }
        }
        i += 1;
    }
    assert(t.take(i - from) =~= t);
    Some(acc)
}

/// `str::parse::<u64>`.
pub fn parse_u64(s: &str) -> (r: Option<u64>)
    ensures
        match r {
            Some(n) => parse_nat(s@, u64::MAX as nat) == Some(n as nat),
            None => parse_nat(s@, u64::MAX as nat) is None,
        },
{
    parse_max(s, u64::MAX)
}

/// `str::parse::<u32>`.
pub fn parse_u32(s: &str) -> (r: Option<u32>)
    ensures
        match r {
            Some(n) => parse_nat(s@, u32::MAX as nat) == Some(n as nat),
            None => parse_nat(s@, u32::MAX as nat) is None,
        },
{
    match parse_max(s, u32::MAX as u64) {
        Some(n) => Some(n as u32),
        None => None,
    }
}

/// `str::parse::<u8>`.
pub fn parse_u8(s: &str) -> (r: Option<u8>)
    ensures
        match r {
            Some(n) => parse_nat(s@, u8::MAX as nat) == Some(n as nat),
            None => parse_nat(s@, u8::MAX as nat) is None,
        },
{
    match parse_max(s, u8::MAX as u64) {
        Some(n) => Some(n as u8),
        None => None,
    }
}

/// `str::parse::<usize>`.
pub fn parse_usize(s: &str) -> (r: Option<usize>)
    ensures
        match r {
            Some(n) => parse_nat(s@, usize::MAX as nat) == Some(n as nat),
            None => parse_nat(s@, usize::MAX as nat) is None,
        },
{
    match parse_max(s, usize::MAX as u64) {
        Some(n) => Some(n as usize),
        None => None,
    }
}

fn parse_max(s: &str, max: u64) -> (r: Option<u64>)
    ensures
        match r {
            Some(n) => parse_nat(s@, max as nat) == Some(n as nat) && n <= max,
            None => parse_nat(s@, max as nat) is None,
        },
{
    let v = chars_of(s);
    assert(v@.skip(0) =~= v@);
    if v.len() > 0 && v[0] == '+' {
        digits_from(&v, 1, max)
    } else {
        digits_from(&v, 0, max)
    }
}

/// `str::parse::<i64>`.
pub fn parse_i64(s: &str) -> (r: Option<i64>)
    ensures
        match r {
            Some(n) => parse_int(s@, i64::MIN as int, i64::MAX as int) == Some(n as int),
            None => parse_int(s@, i64::MIN as int, i64::MAX as int) is None,
        },
{
    let v = chars_of(s);
    if v.len() > 0 && v[0] == '-' {
        match digits_from(&v, 1, 0x8000_0000_0000_0000) {
            Some(n) => Some((-(n as i128)) as i64),
            None => None,
        }
    } else {
        match parse_max(s, i64::MAX as u64) {
            Some(n) => Some(n as i64),
            None => None,
        }
    }
}

// ---- How texts are taken apart ----

/// Blanks, tabs and line ends are white space; letters, digits and the signs
/// of a keyboard are not.
pub proof fn lemma_white_space(c: char)
    ensures
        c == ' ' || c == '\t' || c == '\n' || c == '\r' ==> is_space(c),
        '!' <= c <= '~' ==> !is_space(c),
{
}

/// Trimming takes the white space off both ends and nothing else.
pub proof fn lemma_trim_takes_ends_off(a: Seq<char>, t: Seq<char>, b: Seq<char>)
    requires
        blank(a) && blank(b),
        t.len() > 0 && !is_space(t[0]) && !is_space(t.last()),
    ensures
        trim(a + t + b) == t,
        trim_start(a + t) == t,
        trim_end(t + b) == t,
{
    let p = |c: char| is_space(c);
    let s = a + t + b;
    lemma_prefix_len_is(s, p, a.len() as int);
    assert(s.skip(a.len() as int) =~= t + b);
    lemma_prefix_len_is(a + t, p, a.len() as int);
    assert((a + t).skip(a.len() as int) =~= t);
    lemma_trim_tail(t, b);
}

proof fn lemma_trim_tail(t: Seq<char>, b: Seq<char>)
    requires
        blank(b),
        t.len() > 0 && !is_space(t.last()),
    ensures
        trim_end(t + b) == t,
    decreases b.len(),
{
    if b.len() == 0 {
        assert(t + b =~= t);
    } else {
        assert((t + b).last() == b[b.len() - 1]);
        assert((t + b).drop_last() =~= t + b.drop_last());
        assert(blank(b.drop_last())) by {
            assert forall|i: int| 0 <= i < b.drop_last().len() implies is_space(
                #[trigger] b.drop_last()[i],
            ) by {
                assert(is_space(b[i]));
            }
        }
        lemma_trim_tail(t, b.drop_last());
    }
}

/// The first word of a text ends at its first white space, and the others are
/// the words of what follows.
pub proof fn lemma_words_end_at_white_space(w: Seq<char>, c: char, rest: Seq<char>)
    requires
        w.len() > 0,
        forall|i: int| 0 <= i < w.len() ==> !is_space(#[trigger] w[i]),
        is_space(c),
    ensures
        words(w + seq![c] + rest) == seq![w] + words(rest),
        words(seq![c] + rest) == words(rest),
        words(w) == seq![w],
{
    let sp = |x: char| is_space(x);
    let np = |x: char| !is_space(x);
    let s = w + seq![c] + rest;
    lemma_prefix_len_is(s, sp, 0);
    assert(trim_start(s) =~= s);
    lemma_prefix_len_is(s, np, w.len() as int);
    assert(s.take(w.len() as int) =~= w);
    assert(s.skip(w.len() as int) =~= seq![c] + rest);
    lemma_prefix_len_is(w, sp, 0);
    assert(trim_start(w) =~= w);
    lemma_prefix_len_is(w, np, w.len() as int);
    assert(w.take(w.len() as int) =~= w);
    assert(w.skip(w.len() as int) =~= Seq::<char>::empty());
    lemma_prefix_len_is(Seq::<char>::empty(), sp, 0);
    assert(trim_start(Seq::<char>::empty()) =~= Seq::<char>::empty());
    assert(words(Seq::<char>::empty()) =~= Seq::<Seq<char>>::empty());
    assert(seq![w] + Seq::<Seq<char>>::empty() =~= seq![w]);
    lemma_words_skip_white_space(c, rest);
}

proof fn lemma_words_skip_white_space(c: char, rest: Seq<char>)
    requires
        is_space(c),
    ensures
        words(seq![c] + rest) == words(rest),
{
    let sp = |x: char| is_space(x);
    let s = seq![c] + rest;
    lemma_prefix_len(rest, sp);
    let k = prefix_len(rest, sp) as int;
    assert forall|i: int| 0 <= i < k + 1 implies sp(#[trigger] s[i]) by {
        if i > 0 {
            assert(sp(rest[i - 1]));
        }
    }
    lemma_prefix_len_is(s, sp, k + 1);
    assert(s.skip(k + 1) =~= rest.skip(k));
    assert(trim_start(s) == trim_start(rest));
}

/// A line ends at its first line feed, without a carriage return before it, and
/// the others are the lines of what follows.
pub proof fn lemma_lines_end_at_line_feed(l: Seq<char>, rest: Seq<char>)
    requires
        free_of(l, '\n'),
    ensures
        lines(l + seq!['\n'] + rest) == seq![
            if l.len() > 0 && l.last() == '\r' {
                l.drop_last()
            } else {
                l
            },
        ] + lines(rest),
        l.len() > 0 ==> lines(l) == seq![l],
        lines(Seq::empty()) == Seq::<Seq<char>>::empty(),
{
    let p = |x: char| x != '\n';
    let s = l + seq!['\n'] + rest;
    assert forall|i: int| 0 <= i < l.len() implies p(#[trigger] s[i]) by {
        assert(l[i] != '\n');
    }
    lemma_prefix_len_is(s, p, l.len() as int);
    assert(s.take(l.len() as int) =~= l);
    assert(s.skip(l.len() as int + 1) =~= rest);
    if l.len() > 0 {
        assert forall|i: int| 0 <= i < l.len() implies p(#[trigger] l[i]) by {}
        lemma_prefix_len_is(l, p, l.len() as int);
    }
}

/// A full line is what is left of a line once it is trimmed, and is not empty.
pub proof fn lemma_full_lines_are_trimmed(s: Seq<char>, i: int)
    requires
        0 <= i < full_lines(s).len(),
    ensures
        full_lines(s)[i].len() > 0,
        exists|j: int| 0 <= j < lines(s).len() && full_lines(s)[i] == trim(#[trigger] lines(s)[j]),
{
    let t = lines(s).map_values(|l: Seq<char>| trim(l));
    lemma_filter_member(t, |l: Seq<char>| l.len() > 0, i);
    let j = choose|j: int| 0 <= j < t.len() && #[trigger] t[j] == full_lines(s)[i];
    assert(full_lines(s)[i] == trim(lines(s)[j]));
}

proof fn lemma_filter_member(s: Seq<Seq<char>>, keep: spec_fn(Seq<char>) -> bool, i: int)
    requires
        0 <= i < s.filter(keep).len(),
    ensures
        keep(s.filter(keep)[i]),
        exists|j: int| 0 <= j < s.len() && #[trigger] s[j] == s.filter(keep)[i],
    decreases s.len(),
{
    reveal(Seq::filter);
    if s.len() > 0 {
        let f = s.drop_last().filter(keep);
        if i < f.len() {
            lemma_filter_member(s.drop_last(), keep, i);
            let j = choose|j: int| 0 <= j < s.drop_last().len() && #[trigger] s.drop_last()[j] == f[i];
            assert(s[j] == f[i]);
        } else {
            assert(s[s.len() - 1] == s.last());
        }
    }
}

/// A whole number reads back as it was written, with its sign.
pub proof fn lemma_parse_dec_int(i: int, min: int, max: int)
    requires
        min <= i <= max,
        max >= 0,
    ensures
        parse_int(dec_int(i), min, max) == Some(i),
{
    if i < 0 {
        lemma_dec_digits((-i) as nat);
        assert(dec_int(i).skip(1) =~= dec((-i) as nat));
    } else {
        lemma_dec_digits(i as nat);
        lemma_parse_dec(i as nat, max as nat);
        assert(dec(i as nat)[0] != '-');
    }
}

proof fn lemma_zeros(k: int)
    ensures
        zeros(k).len() == (if k > 0 {
            k
        } else {
            0
        }),
        forall|i: int| 0 <= i < zeros(k).len() ==> #[trigger] zeros(k)[i] == '0',
    decreases k,
{
    if k > 0 {
        lemma_zeros(k - 1);
    }
}

proof fn lemma_zeros_add_nothing(z: Seq<char>, s: Seq<char>)
    requires
        forall|i: int| 0 <= i < z.len() ==> #[trigger] z[i] == '0',
    ensures
        digits_value(z + s) == digits_value(s),
    decreases z.len() + s.len(),
{
    if s.len() > 0 {
        assert((z + s).drop_last() =~= z + s.drop_last());
        assert((z + s).last() == s.last());
        lemma_zeros_add_nothing(z, s.drop_last());
    } else if z.len() > 0 {
        assert(z + s =~= z);
        let head = z.drop_last();
        assert forall|i: int| 0 <= i < head.len() implies #[trigger] head[i] == '0' by {
            assert(z[i] == '0');
        }
        assert(head + Seq::<char>::empty() =~= head);
        lemma_zeros_add_nothing(head, Seq::empty());
        assert(z[z.len() - 1] == '0');
    } else {
        assert(z + s =~= s);
    }
}

/// A padded number has the given width, or more where its digits need it, and
/// the same value; so different numbers are padded to different texts.
pub proof fn lemma_padding_keeps_value(n: nat, width: int)
    ensures
        padded(n, width).len() >= width,
        padded(n, width).len() == width || padded(n, width) == dec(n),
        all_digits(padded(n, width)),
        digits_value(padded(n, width)) == n,
{
    lemma_dec_digits(n);
    lemma_zeros(width - dec(n).len());
    let z = zeros(width - dec(n).len());
    lemma_zeros_add_nothing(z, dec(n));
    assert forall|i: int| 0 <= i < padded(n, width).len() implies is_digit(
        #[trigger] padded(n, width)[i],
    ) by {
        if i < z.len() {
            assert(z[i] == '0');
        } else {
            assert(is_digit(dec(n)[i - z.len()]));
        }
    }
    if z.len() == 0 {
        assert(z + dec(n) =~= dec(n));
    }
}

/// What stands before the first occurrence holds none: the text is cut at the
/// first, and whole where there is none.
pub proof fn lemma_before_first(h: Seq<char>, n: Seq<char>, i: int, from: int)
    requires
        0 <= from <= i <= h.len(),
        occurs_at(h, n, i),
        forall|j: int| from <= j < i ==> !occurs_at(h, n, j),
    ensures
        before_first(h, n, from) == h.take(i),
    decreases i - from,
{
    if from < i {
        assert(!occurs_at(h, n, from));
        lemma_before_first(h, n, i, from + 1);
    }
}

} // verus!
