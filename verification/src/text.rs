//! Character-level text model shared by the rest of the crate: Unicode
//! whitespace, trimming, splitting on a separator, splitting into
//! whitespace-separated words and joining them again.
use vstd::prelude::*;

verus! {

/// Unicode `White_Space` characters: the set that `char::is_whitespace`,
/// `str::trim` and `str::split_whitespace` use.
pub open spec fn is_ws(c: char) -> bool {
    ||| ('\u{9}' <= c && c <= '\u{d}')
    ||| c == ' '
    ||| c == '\u{85}'
    ||| c == '\u{a0}'
    ||| c == '\u{1680}'
    ||| ('\u{2000}' <= c && c <= '\u{200a}')
    ||| c == '\u{2028}'
    ||| c == '\u{2029}'
    ||| c == '\u{202f}'
    ||| c == '\u{205f}'
    ||| c == '\u{3000}'
}

/// Executable test for [`is_ws`].
pub fn is_whitespace(c: char) -> (b: bool)
    ensures
        b == is_ws(c),
{
    ('\u{9}' <= c && c <= '\u{d}') || c == ' ' || c == '\u{85}' || c == '\u{a0}' || c
        == '\u{1680}' || ('\u{2000}' <= c && c <= '\u{200a}') || c == '\u{2028}' || c
        == '\u{2029}' || c == '\u{202f}' || c == '\u{205f}' || c == '\u{3000}'
}

/// `s` without its leading whitespace.
pub open spec fn trim_start(s: Seq<char>) -> Seq<char>
    decreases s.len(),
{
    if s.len() > 0 && is_ws(s[0]) {
        trim_start(s.drop_first())
    } else {
        s
    }
}

/// `s` without its trailing whitespace.
pub open spec fn trim_end(s: Seq<char>) -> Seq<char>
    decreases s.len(),
{
    if s.len() > 0 && is_ws(s.last()) {
        trim_end(s.drop_last())
    } else {
        s
    }
}

/// `s` without leading and trailing whitespace, as `str::trim` gives it.
pub open spec fn trim(s: Seq<char>) -> Seq<char> {
    trim_end(trim_start(s))
}

/// The pieces of `s` between occurrences of `sep`, as `str::split` with a
/// single character gives them: `k` separators give `k + 1` pieces, some of
/// which may be empty.
pub open spec fn split_on(s: Seq<char>, sep: char) -> Seq<Seq<char>>
    decreases s.len(),
{
    if s.len() == 0 {
        seq![Seq::<char>::empty()]
    } else {
        let prev = split_on(s.drop_last(), sep);
        if s.last() == sep {
            prev.push(Seq::<char>::empty())
        } else {
            prev.update(prev.len() - 1, prev.last().push(s.last()))
        }
    }
}

/// The maximal runs of non-whitespace characters of `s`, in order, as
/// `str::split_whitespace` gives them.
pub open spec fn words(s: Seq<char>) -> Seq<Seq<char>>
    decreases s.len(),
{
    if s.len() == 0 {
        Seq::<Seq<char>>::empty()
    } else {
        let prev = words(s.drop_last());
        let c = s.last();
        if is_ws(c) {
            prev
        } else if s.len() == 1 || is_ws(s[s.len() - 2]) {
            prev.push(seq![c])
        } else {
            prev.update(prev.len() - 1, prev.last().push(c))
        }
    }
}

/// The parts concatenated with `sep` between consecutive parts.
pub open spec fn join(parts: Seq<Seq<char>>, sep: Seq<char>) -> Seq<char>
    decreases parts.len(),
{
    if parts.len() == 0 {
        Seq::<char>::empty()
    } else if parts.len() == 1 {
        parts[0]
    } else {
        join(parts.drop_last(), sep) + sep + parts.last()
    }
}

/// `s` with every run of whitespace replaced by one space and none at
/// either end.
pub open spec fn collapse_ws(s: Seq<char>) -> Seq<char> {
    join(words(s), seq![' '])
}

/// Lowercase mapping of a whole string, as `str::to_lowercase` computes it
/// from the Unicode tables.
pub uninterp spec fn lowercase(s: Seq<char>) -> Seq<char>;

/// Calls `str::to_lowercase`, which gives the Unicode lowercase form of the
/// whole string (context-dependent for the final sigma); the result is a
/// function of `s` alone, named [`lowercase`].
#[verifier::external_body]
pub(crate) fn to_lowercase(s: &str) -> (res: String)
    ensures
        res@ == lowercase(s@),
{
    s.to_lowercase()
}

/// Calls `String::push`, which appends one character.
#[verifier::external_body]
pub(crate) fn push_char(s: &mut String, c: char)
    ensures
        final(s)@ == old(s)@.push(c),
{
    s.push(c);
}

/// The characters of `s`, in order.
pub fn to_chars(s: &str) -> (out: Vec<char>)
    ensures
        out@ == s@,
{
    let mut out: Vec<char> = Vec::new();
    for c in it: s.chars()
        invariant
            out@ == it.seq().take(it.index() as int),
    {
        out.push(c);
    }
    out
}

/// The string made of the characters `chars[lo..hi]`.
pub fn string_of(chars: &Vec<char>, lo: usize, hi: usize) -> (out: String)
    requires
        lo <= hi <= chars.len(),
    ensures
        out@ == chars@.subrange(lo as int, hi as int),
{
    let mut out = String::new();
    let mut i = lo;
    while i < hi
        invariant
            lo <= i <= hi <= chars.len(),
            out@ == chars@.subrange(lo as int, i as int),
        decreases hi - i,
    {
        push_char(&mut out, chars[i]);
        assert(chars@.subrange(lo as int, i + 1) =~= chars@.subrange(lo as int, i as int).push(
            chars@[i as int],
        ));
        i += 1;
    }
    out
}

/// A copy of `chars[lo..hi]`.
pub fn sub_chars(chars: &Vec<char>, lo: usize, hi: usize) -> (out: Vec<char>)
    requires
        lo <= hi <= chars.len(),
    ensures
        out@ == chars@.subrange(lo as int, hi as int),
{
    let mut out: Vec<char> = Vec::new();
    let mut i = lo;
    while i < hi
        invariant
            lo <= i <= hi <= chars.len(),
            out@ == chars@.subrange(lo as int, i as int),
        decreases hi - i,
    {
        out.push(chars[i]);
        assert(out@ =~= chars@.subrange(lo as int, i + 1));
        i += 1;
    }
    out
}

/// The last piece that `split_on` yields is what follows the last
/// separator.
pub proof fn lemma_split_last_piece(s: Seq<char>, sep: char, k: int)
    requires
        0 <= k <= s.len(),
        forall|j: int| k <= j < s.len() ==> #[trigger] s[j] != sep,
        k == 0 || s[k - 1] == sep,
    ensures
        k == 0 ==> split_on(s, sep) == seq![s],
        k > 0 ==> split_on(s, sep) == split_on(s.take(k - 1), sep).push(s.skip(k)),
    decreases s.len() - k,
{
    if s.len() == k {
        if k == 0 {
            assert(s =~= Seq::<char>::empty());
            assert(split_on(s, sep) =~= seq![s]);
        } else {
            assert(s.drop_last() =~= s.take(k - 1));
            assert(s.skip(k) =~= Seq::<char>::empty());
        }
    } else {
        let t = s.drop_last();
        assert forall|j: int| k <= j < t.len() implies #[trigger] t[j] != sep by {
            assert(t[j] == s[j]);
        }
        if k > 0 {
            assert(t[k - 1] == s[k - 1]);
        }
        lemma_split_last_piece(t, sep, k);
        assert(s.last() != sep);
        if k == 0 {
            assert(t.push(s.last()) =~= s);
            assert(split_on(s, sep) =~= seq![s]);
        } else {
            assert(t.take(k - 1) =~= s.take(k - 1));
            assert(t.skip(k).push(s.last()) =~= s.skip(k));
            assert(split_on(s, sep) =~= split_on(s.take(k - 1), sep).push(s.skip(k)));
        }
    }
}

/// Whether the two character sequences are equal.
pub fn chars_eq(a: &Vec<char>, b: &Vec<char>) -> (eq: bool)
    ensures
        eq == (a@ == b@),
{
    if a.len() != b.len() {
        return false;
    }
    let mut i: usize = 0;
    while i < a.len()
        invariant
            a.len() == b.len(),
            i <= a.len(),
            forall|j: int| 0 <= j < i ==> a@[j] == b@[j],
        decreases a.len() - i,
    {
        if a[i] != b[i] {
            return false;
        }
        i += 1;
    }
    assert(a@ =~= b@);
    true
}

/// Whether `s` begins with `prefix`.
pub fn starts_with(s: &Vec<char>, prefix: &Vec<char>) -> (b: bool)
    ensures
        b == (prefix@.len() <= s@.len() && s@.take(prefix@.len() as int) == prefix@),
{
    if prefix.len() > s.len() {
        return false;
    }
    let mut i: usize = 0;
    while i < prefix.len()
        invariant
            prefix.len() <= s.len(),
            i <= prefix.len(),
            forall|j: int| 0 <= j < i ==> s@[j] == prefix@[j],
        decreases prefix.len() - i,
    {
        if s[i] != prefix[i] {
            assert(s@.take(prefix@.len() as int)[i as int] != prefix@[i as int]);
            return false;
        }
        i += 1;
    }
    assert(s@.take(prefix@.len() as int) =~= prefix@);
    true
}

pub proof fn lemma_trim_start_skip(s: Seq<char>, k: int)
    requires
        0 <= k <= s.len(),
        forall|j: int| 0 <= j < k ==> is_ws(#[trigger] s[j]),
        k == s.len() || !is_ws(s[k]),
    ensures
        trim_start(s) == s.skip(k),
    decreases k,
{
    if k == 0 {
        assert(s.skip(0) =~= s);
    } else {
        assert(is_ws(s[0]));
        let t = s.drop_first();
        assert forall|j: int| 0 <= j < k - 1 implies is_ws(#[trigger] t[j]) by {
            assert(t[j] == s[j + 1]);
        }
        lemma_trim_start_skip(t, k - 1);
        assert(t.skip(k - 1) =~= s.skip(k));
    }
}

pub proof fn lemma_trim_end_take(s: Seq<char>, k: int)
    requires
        0 <= k <= s.len(),
        forall|j: int| k <= j < s.len() ==> is_ws(#[trigger] s[j]),
        k == 0 || !is_ws(s[k - 1]),
    ensures
        trim_end(s) == s.take(k),
    decreases s.len() - k,
{
    if k == s.len() {
        assert(s.take(k) =~= s);
    } else {
        assert(is_ws(s.last()));
        let t = s.drop_last();
        assert forall|j: int| k <= j < t.len() implies is_ws(#[trigger] t[j]) by {
            assert(t[j] == s[j]);
        }
        lemma_trim_end_take(t, k);
        assert(t.take(k) =~= s.take(k));
    }
}

/// Bounds `(a, b)` such that `s[a..b]` is `s[lo..hi]` trimmed.
pub fn trim_bounds(s: &Vec<char>, lo: usize, hi: usize) -> (r: (usize, usize))
    requires
        lo <= hi <= s.len(),
    ensures
        lo <= r.0 <= r.1 <= hi,
        s@.subrange(r.0 as int, r.1 as int) == trim(s@.subrange(lo as int, hi as int)),
{
    let ghost t = s@.subrange(lo as int, hi as int);
    let mut a = lo;
    while a < hi && is_whitespace(s[a])
        invariant
            lo <= a <= hi <= s.len(),
            forall|j: int| lo <= j < a ==> is_ws(#[trigger] s@[j]),
        decreases hi - a,
    {
        a += 1;
    }
    let mut b = hi;
    while b > a && is_whitespace(s[b - 1])
        invariant
            lo <= a <= b <= hi <= s.len(),
            forall|j: int| b <= j < hi ==> is_ws(#[trigger] s@[j]),
        decreases b - a,
    {
        b -= 1;
    }
    proof {
        assert forall|j: int| 0 <= j < a - lo implies is_ws(#[trigger] t[j]) by {
            assert(t[j] == s@[lo + j]);
        }
        lemma_trim_start_skip(t, a - lo);
        let u = s@.subrange(a as int, hi as int);
        assert(t.skip(a - lo) =~= u);
        assert forall|j: int| b - a <= j < u.len() implies is_ws(#[trigger] u[j]) by {
            assert(u[j] == s@[a + j]);
        }
        lemma_trim_end_take(u, b - a);
        assert(u.take(b - a) =~= s@.subrange(a as int, b as int));
    }
    (a, b)
}

/// Joining one more part after a non-empty list appends the separator and
/// the part.
pub proof fn lemma_join_push(parts: Seq<Seq<char>>, sep: Seq<char>, w: Seq<char>)
    requires
        parts.len() > 0,
    ensures
        join(parts.push(w), sep) == join(parts, sep) + sep + w,
{
    assert(parts.push(w).drop_last() =~= parts);
}

/// Growing the last part by one character grows the joined string by that
/// character.
pub proof fn lemma_join_extend_last(parts: Seq<Seq<char>>, sep: Seq<char>, c: char)
    requires
        parts.len() > 0,
    ensures
        join(parts.update(parts.len() - 1, parts.last().push(c)), sep) == join(parts, sep).push(
            c,
        ),
{
    let q = parts.update(parts.len() - 1, parts.last().push(c));
    if parts.len() > 1 {
        assert(q.drop_last() =~= parts.drop_last());
        assert(join(q, sep) =~= join(parts, sep).push(c));
    }
}

/// A string whose last character is not whitespace has at least one word.
pub proof fn lemma_words_nonempty(s: Seq<char>)
    requires
        s.len() > 0,
        !is_ws(s.last()),
    ensures
        words(s).len() > 0,
    decreases s.len(),
{
    if s.len() > 1 && !is_ws(s[s.len() - 2]) {
        let t = s.drop_last();
        assert(t.last() == s[s.len() - 2]);
        lemma_words_nonempty(t);
    }
}

/// `s` with whitespace runs collapsed to single spaces and trimmed.
pub fn collapse_whitespace(s: &Vec<char>) -> (out: Vec<char>)
    ensures
        out@ == collapse_ws(s@),
{
    let mut out: Vec<char> = Vec::new();
    let mut i: usize = 0;
    while i < s.len()
        invariant
            i <= s.len(),
            out@ == join(words(s@.take(i as int)), seq![' ']),
        decreases s.len() - i,
    {
        let c = s[i];
        let ghost pre = s@.take(i as int);
        let ghost cur = s@.take(i + 1);
        proof {
            assert(cur.drop_last() =~= pre);
            assert(cur.last() == c);
        }
        if is_whitespace(c) {
        } else if i == 0 || is_whitespace(s[i - 1]) {
            proof {
                if i > 0 {
                    assert(cur[cur.len() - 2] == s@[i - 1]);
                }
            }
            if i > 0 && out.len() > 0 {
                proof {
                    if words(pre).len() == 0 {
                        assert(join(words(pre), seq![' ']).len() == 0);
                    }
                    lemma_join_push(words(pre), seq![' '], seq![c]);
                }
                out.push(' ');
                out.push(c);
                assert(out@ =~= join(words(pre), seq![' ']) + seq![' '] + seq![c]);
            } else {
                proof {
                    if words(pre).len() > 0 {
                        if words(pre).len() == 1 {
                            assert(join(words(pre), seq![' ']) == words(pre)[0]);
                        }
                        lemma_words_join_nonempty(pre);
                    }
                    assert(words(pre).len() == 0);
                    assert(words(cur) =~= seq![seq![c]]);
                }
                out.push(c);
                assert(out@ =~= seq![c]);
            }
        } else {
            proof {
                assert(cur[cur.len() - 2] == s@[i - 1]);
                assert(pre.last() == s@[i - 1]);
                lemma_words_nonempty(pre);
                lemma_join_extend_last(words(pre), seq![' '], c);
            }
            out.push(c);
        }
        i += 1;
    }
    assert(s@.take(s.len() as int) =~= s@);
    out
}

/// Words are never empty, so a non-empty list of words joins to a
/// non-empty string.
pub proof fn lemma_words_join_nonempty(s: Seq<char>)
    requires
        words(s).len() > 0,
    ensures
        join(words(s), seq![' ']).len() > 0,
{
    lemma_words_are_nonempty(s);
    lemma_join_len_at_least_last(words(s), seq![' ']);
}

/// Every word is non-empty and holds no whitespace.
pub proof fn lemma_words_are_nonempty(s: Seq<char>)
    ensures
        forall|k: int|
            0 <= k < words(s).len() ==> #[trigger] words(s)[k].len() > 0 && forall|j: int|
                0 <= j < words(s)[k].len() ==> !is_ws(words(s)[k][j]),
    decreases s.len(),
{
    if s.len() > 0 {
        lemma_words_are_nonempty(s.drop_last());
        let prev = words(s.drop_last());
        if !is_ws(s.last()) && !(s.len() == 1 || is_ws(s[s.len() - 2])) {
            lemma_words_nonempty(s.drop_last());
            let w = prev.last().push(s.last());
            assert forall|k: int| 0 <= k < words(s).len() implies #[trigger] words(s)[k].len()
                > 0 && forall|j: int| 0 <= j < words(s)[k].len() ==> !is_ws(words(s)[k][j]) by {
                if k == prev.len() - 1 {
                    assert(words(s)[k] == w);
                    assert forall|j: int| 0 <= j < w.len() implies !is_ws(w[j]) by {
                        if j < prev.last().len() {
                            assert(w[j] == prev[prev.len() - 1][j]);
                        }
                    }
                } else {
                    assert(words(s)[k] == prev[k]);
                }
            }
        }
    }
}

proof fn lemma_join_len_at_least_last(parts: Seq<Seq<char>>, sep: Seq<char>)
    requires
        parts.len() > 0,
    ensures
        join(parts, sep).len() >= parts.last().len(),
{
}

/// Whitespace in `s` only as single spaces between non-whitespace
/// characters: none at either end, none doubled, no other kind.
pub open spec fn single_spaced(s: Seq<char>) -> bool {
    forall|i: int|
        0 <= i < s.len() && is_ws(#[trigger] s[i]) ==> {
            &&& s[i] == ' '
            &&& 0 < i < s.len() - 1
            &&& !is_ws(s[i - 1])
            &&& !is_ws(s[i + 1])
        }
}

proof fn lemma_join_single_spaced(parts: Seq<Seq<char>>)
    requires
        forall|k: int|
            0 <= k < parts.len() ==> #[trigger] parts[k].len() > 0 && forall|j: int|
                0 <= j < parts[k].len() ==> !is_ws(parts[k][j]),
    ensures
        single_spaced(join(parts, seq![' '])),
        join(parts, seq![' ']).len() > 0 ==> !is_ws(join(parts, seq![' '])[0]) && !is_ws(
            join(parts, seq![' ']).last(),
        ),
    decreases parts.len(),
{
    let x = join(parts, seq![' ']);
    if parts.len() == 1 {
        assert(parts[0].len() > 0);
    } else if parts.len() > 1 {
        let p = parts.drop_last();
        assert forall|k: int| 0 <= k < p.len() implies #[trigger] p[k].len() > 0 && forall|j: int|
            0 <= j < p[k].len() ==> !is_ws(p[k][j]) by {
            assert(p[k] == parts[k]);
        }
        lemma_join_single_spaced(p);
        let y = join(p, seq![' ']);
        let w = parts.last();
        assert(parts[parts.len() - 1] == w);
        assert(w.len() > 0);
        assert(y.len() > 0) by {
            assert(p[p.len() - 1].len() > 0);
            lemma_join_len_at_least_last(p, seq![' ']);
        }
        assert(x == y + seq![' '] + w);
        assert forall|i: int| 0 <= i < x.len() && is_ws(#[trigger] x[i]) implies {
            &&& x[i] == ' '
            &&& 0 < i < x.len() - 1
            &&& !is_ws(x[i - 1])
            &&& !is_ws(x[i + 1])
        } by {
            if i < y.len() {
                assert(x[i] == y[i]);
                if i + 1 < y.len() {
                    assert(x[i + 1] == y[i + 1]);
                } else {
                    assert(y[i] == y.last());
                }
                if i > 0 {
                    assert(x[i - 1] == y[i - 1]);
                }
            } else if i == y.len() {
                assert(x[i - 1] == y.last());
                assert(x[i + 1] == w[0]);
            } else {
                assert(x[i] == w[i - y.len() - 1]);
            }
        }
        assert(x[0] == y[0]);
        assert(x.last() == w[w.len() - 1]);
    }
}

/// Collapsed whitespace is single-spaced, and trimming leaves it as it is.
pub proof fn lemma_collapse_ws_single_spaced(s: Seq<char>)
    ensures
        single_spaced(collapse_ws(s)),
        trim(collapse_ws(s)) == collapse_ws(s),
{
    lemma_words_are_nonempty(s);
    lemma_join_single_spaced(words(s));
    let x = collapse_ws(s);
    if x.len() > 0 {
        lemma_trim_start_skip(x, 0);
        assert(x.skip(0) =~= x);
        lemma_trim_end_take(x, x.len() as int);
        assert(x.take(x.len() as int) =~= x);
    } else {
        assert(trim_start(x) == x);
        assert(trim_end(x) == x);
    }
}

/// Appending a word after a whitespace boundary appends it to the words.
proof fn lemma_words_append_word(s: Seq<char>, w: Seq<char>)
    requires
        s.len() == 0 || is_ws(s.last()),
        w.len() > 0,
        forall|j: int| 0 <= j < w.len() ==> !is_ws(#[trigger] w[j]),
    ensures
        words(s + w) == words(s).push(w),
    decreases w.len(),
{
    let x = s + w;
    let c = w.last();
    assert(w[w.len() - 1] == c);
    if w.len() == 1 {
        assert(x.drop_last() =~= s);
        assert(x.last() == c);
        if s.len() > 0 {
            assert(x[x.len() - 2] == s.last());
        }
        assert(seq![c] =~= w);
    } else {
        let v = w.drop_last();
        assert forall|j: int| 0 <= j < v.len() implies !is_ws(#[trigger] v[j]) by {
            assert(v[j] == w[j]);
        }
        lemma_words_append_word(s, v);
        assert(x.drop_last() =~= s + v);
        assert(x[x.len() - 2] == v.last());
        assert(v.last() == w[w.len() - 2]);
        assert(v.push(c) =~= w);
        assert(words(s).push(v).update(words(s).len() as int, v.push(c)) =~= words(s).push(w));
    }
}

/// Splitting the joined words into words again gives the same words.
proof fn lemma_words_of_join(parts: Seq<Seq<char>>)
    requires
        forall|k: int|
            0 <= k < parts.len() ==> #[trigger] parts[k].len() > 0 && forall|j: int|
                0 <= j < parts[k].len() ==> !is_ws(parts[k][j]),
    ensures
        words(join(parts, seq![' '])) == parts,
    decreases parts.len(),
{
    if parts.len() == 0 {
        assert(words(Seq::<char>::empty()) =~= parts);
    } else if parts.len() == 1 {
        let w = parts[0];
        lemma_words_append_word(Seq::<char>::empty(), w);
        assert(Seq::<char>::empty() + w =~= w);
        assert(Seq::<Seq<char>>::empty().push(w) =~= parts);
    } else {
        let p = parts.drop_last();
        let w = parts.last();
        assert(parts[parts.len() - 1] == w);
        assert forall|k: int| 0 <= k < p.len() implies #[trigger] p[k].len() > 0 && forall|j: int|
            0 <= j < p[k].len() ==> !is_ws(p[k][j]) by {
            assert(p[k] == parts[k]);
        }
        lemma_words_of_join(p);
        let s = join(p, seq![' ']) + seq![' '];
        assert(s.drop_last() =~= join(p, seq![' ']));
        assert(is_ws(s.last()));
        assert(words(s) == words(join(p, seq![' '])));
        lemma_words_append_word(s, w);
        assert(join(parts, seq![' ']) == s + w);
        assert(p.push(w) =~= parts);
    }
}

/// Collapsing collapsed whitespace changes nothing.
pub proof fn lemma_collapse_ws_idempotent(s: Seq<char>)
    ensures
        collapse_ws(collapse_ws(s)) == collapse_ws(s),
{
    lemma_words_are_nonempty(s);
    lemma_words_of_join(words(s));
}

/// Trimming the end of a string that starts with a non-whitespace
/// character keeps that character first.
proof fn lemma_trim_end_keeps_first(y: Seq<char>)
    requires
        y.len() > 0,
        !is_ws(y[0]),
    ensures
        trim_end(y).len() > 0,
        trim_end(y)[0] == y[0],
    decreases y.len(),
{
    if is_ws(y.last()) {
        assert(y.len() > 1);
        let z = y.drop_last();
        assert(z[0] == y[0]);
        lemma_trim_end_keeps_first(z);
    }
}

/// A trimmed string is empty or starts and ends with non-whitespace.
pub proof fn lemma_trim_ends(x: Seq<char>)
    ensures
        trim(x).len() > 0 ==> !is_ws(trim(x)[0]) && !is_ws(trim(x).last()),
    decreases x.len(),
{
    lemma_trim_start_first(x);
    lemma_trim_end_last(trim_start(x));
    if trim_start(x).len() > 0 {
        lemma_trim_end_keeps_first(trim_start(x));
    } else {
        assert(trim_end(trim_start(x)).len() == 0);
    }
}

proof fn lemma_trim_start_first(x: Seq<char>)
    ensures
        trim_start(x).len() > 0 ==> !is_ws(trim_start(x)[0]),
    decreases x.len(),
{
    if x.len() > 0 && is_ws(x[0]) {
        lemma_trim_start_first(x.drop_first());
    }
}

proof fn lemma_trim_end_last(x: Seq<char>)
    ensures
        trim_end(x).len() > 0 ==> !is_ws(trim_end(x).last()),
    decreases x.len(),
{
    if x.len() > 0 && is_ws(x.last()) {
        lemma_trim_end_last(x.drop_last());
    }
}

/// A string with a non-whitespace character trims to a non-empty string.
pub proof fn lemma_trim_nonempty(x: Seq<char>, m: int)
    requires
        0 <= m < x.len(),
        !is_ws(x[m]),
    ensures
        trim(x).len() > 0,
    decreases m,
{
    if is_ws(x[0]) {
        let z = x.drop_first();
        assert(z[m - 1] == x[m]);
        lemma_trim_nonempty(z, m - 1);
        assert(trim_start(x) == trim_start(z));
    } else {
        assert(trim_start(x) == x);
        lemma_trim_end_keeps_first(x);
    }
}

} // verus!
