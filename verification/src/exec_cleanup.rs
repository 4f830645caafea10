//! Strip field codes from `.desktop` `Exec=` values and render an `Exec=`
//! line as a short "basename args" label.
//!
//! Per the freedesktop spec, field codes are `%f %F %u %U %i %c %k` (plus a
//! literal `%%` escape for a single `%`). Launchers that don't expand them
//! must remove them before exec.
use vstd::prelude::*;

use crate::field_code_regex::{
    compile_pattern, field_code_pattern, regex_compiles, replace_all_matches, without_field_codes,
    CompiledPattern,
};
use crate::text::{
    collapse_whitespace, collapse_ws, is_whitespace, is_ws, push_char, split_on, string_of,
    sub_chars, to_chars, trim, trim_bounds, lemma_split_last_piece, single_spaced,
    lemma_collapse_ws_single_spaced, join, lemma_collapse_ws_idempotent, lemma_trim_ends,
    lemma_trim_nonempty,
};

verus! {

/// The pieces of `s` between occurrences of the `%%` escape, read left to
/// right without overlap.
pub open spec fn percent_pieces(s: Seq<char>) -> Seq<Seq<char>>
    decreases s.len(),
{
    if s.len() == 0 {
        seq![Seq::<char>::empty()]
    } else if s.len() >= 2 && s[0] == '%' && s[1] == '%' {
        seq![Seq::<char>::empty()] + percent_pieces(s.skip(2))
    } else {
        prepend_to_first(seq![s[0]], percent_pieces(s.skip(1)))
    }
}

/// `pieces` with `p` put before its first piece.
pub open spec fn prepend_to_first(p: Seq<char>, pieces: Seq<Seq<char>>) -> Seq<Seq<char>> {
    pieces.update(0, p + pieces[0])
}

/// Each piece without its field codes.
pub open spec fn pieces_without_codes(pieces: Seq<Seq<char>>) -> Seq<Seq<char>> {
    pieces.map_values(|p: Seq<char>| without_field_codes(p))
}

/// The character that marks an escaped `%` (`%%`) while field codes are
/// removed; in the end every one of them, a U+FEFF of the line included,
/// comes out as `%`.
pub const PERCENT_MARK: char = '\u{feff}';

/// `s` with every [`PERCENT_MARK`] turned into `%`.
pub open spec fn restore_percents(s: Seq<char>) -> Seq<char> {
    s.map_values(|c: char| if c == PERCENT_MARK { '%' } else { c })
}

/// What follows the removal of the field codes: marks back to `%`,
/// whitespace runs collapsed to one space, ends trimmed.
pub open spec fn tidy_spec(stripped: Seq<char>) -> Seq<char> {
    trim(collapse_ws(restore_percents(stripped)))
}

/// An `Exec=` value with its field codes stripped: each `%%` stands for a
/// literal `%` (marked by [`PERCENT_MARK`] until the end), the field codes
/// are removed from the text between them, then marks turn into `%` and
/// whitespace is collapsed and trimmed.
pub open spec fn stripped_exec(exec: Seq<char>) -> Seq<char> {
    tidy_spec(join(pieces_without_codes(percent_pieces(exec)), seq![PERCENT_MARK]))
}

proof fn lemma_percent_pieces_nonempty(s: Seq<char>)
    ensures
        percent_pieces(s).len() >= 1,
    decreases s.len(),
{
    if s.len() > 0 {
        lemma_percent_pieces_nonempty(s.skip(1));
        if s.len() >= 2 {
            lemma_percent_pieces_nonempty(s.skip(2));
        }
    }
}

/// Appends `chars[lo..hi]` without its field codes to `joined`, after a
/// [`PERCENT_MARK`] unless it is the first piece.
fn append_piece(
    pattern: &CompiledPattern,
    chars: &Vec<char>,
    lo: usize,
    hi: usize,
    joined: &mut Vec<char>,
    first: bool,
)
    requires
        lo <= hi <= chars.len(),
        pattern.source() == field_code_pattern(),
    ensures
        final(joined)@ == if first {
            without_field_codes(chars@.subrange(lo as int, hi as int))
        } else {
            old(joined)@ + seq![PERCENT_MARK] + without_field_codes(
                chars@.subrange(lo as int, hi as int),
            )
        },
{
    let piece = string_of(chars, lo, hi);
    proof {
        reveal_strlit("");
    }
    let stripped = replace_all_matches(pattern, piece.as_str(), "");
    let mut stripped_chars = to_chars(stripped.as_str());
    if first {
        joined.clear();
    } else {
        joined.push(PERCENT_MARK);
    }
    joined.append(&mut stripped_chars);
}

/// Marks back to `%`, whitespace runs collapsed to single spaces, ends
/// trimmed: the work that follows the removal of the field codes.
pub fn tidy_stripped_exec(stripped: &str) -> (res: String)
    ensures
        res@ == tidy_spec(stripped@),
{
    let chars = to_chars(stripped);
    let mut restored: Vec<char> = Vec::new();
    let mut i: usize = 0;
    while i < chars.len()
        invariant
            i <= chars.len(),
            restored@ == restore_percents(chars@.take(i as int)),
        decreases chars.len() - i,
    {
        let c = chars[i];
        restored.push(if c == PERCENT_MARK { '%' } else { c });
        assert(restored@ =~= restore_percents(chars@.take(i + 1)));
        i += 1;
    }
    assert(chars@.take(chars.len() as int) =~= chars@);
    let collapsed = collapse_whitespace(&restored);
    let (a, b) = trim_bounds(&collapsed, 0, collapsed.len());
    assert(collapsed@.subrange(0, collapsed.len() as int) =~= collapsed@);
    string_of(&collapsed, a, b)
}

/// Strip the field codes from an `Exec=` value: `%%` stands for a literal
/// `%`, `%u %U %f %F %i %c %k` are removed, whitespace runs left behind
/// collapse to one space and the ends are trimmed. `None` only where the
/// regex crate refuses the field-code pattern.
pub fn strip_field_codes(exec: &str) -> (res: Option<String>)
    ensures
        res is Some <==> regex_compiles(field_code_pattern()),
        res matches Some(r) ==> r@ == stripped_exec(exec@),
{
    let pattern = match compile_pattern("%[uUfFick]") {
        Some(p) => p,
        None => return None,
    };
    let chars = to_chars(exec);
    let mut joined: Vec<char> = Vec::new();
    let mut first = true;
    let ghost mut done: Seq<Seq<char>> = Seq::empty();
    let mut start: usize = 0;
    let mut i: usize = 0;
    proof {
        lemma_percent_pieces_nonempty(chars@);
        assert(chars@.skip(0) =~= chars@);
        assert(prepend_to_first(Seq::<char>::empty(), percent_pieces(chars@)) =~= percent_pieces(
            chars@,
        ));
        assert(done + percent_pieces(chars@) =~= percent_pieces(chars@));
    }
    while i < chars.len()
        invariant
            chars@ == exec@,
            pattern.source() == field_code_pattern(),
            start <= i <= chars.len(),
            percent_pieces(chars@) == done + prepend_to_first(
                chars@.subrange(start as int, i as int),
                percent_pieces(chars@.skip(i as int)),
            ),
            first == (done.len() == 0),
            joined@ == join(pieces_without_codes(done), seq![PERCENT_MARK]),
        decreases chars.len() - i,
    {
        let ghost rest = chars@.skip(i as int);
        let ghost cur = chars@.subrange(start as int, i as int);
        if i + 1 < chars.len() && chars[i] == '%' && chars[i + 1] == '%' {
            append_piece(&pattern, &chars, start, i, &mut joined, first);
            proof {
                assert(rest[0] == '%' && rest[1] == '%');
                assert(rest.skip(2) =~= chars@.skip(i + 2));
                let tail = percent_pieces(chars@.skip(i + 2));
                lemma_percent_pieces_nonempty(chars@.skip(i + 2));
                assert(prepend_to_first(cur, percent_pieces(rest)) =~= seq![cur] + tail);
                assert(prepend_to_first(Seq::<char>::empty(), tail) =~= tail);
                assert(pieces_without_codes(done.push(cur)) =~= pieces_without_codes(done).push(
                    without_field_codes(cur),
                ));
                if done.len() > 0 {
                    crate::text::lemma_join_push(
                        pieces_without_codes(done),
                        seq![PERCENT_MARK],
                        without_field_codes(cur),
                    );
                } else {
                    assert(pieces_without_codes(done.push(cur)) =~= seq![without_field_codes(cur)]);
                }
                done = done.push(cur);
                assert(chars@.subrange(i + 2, i + 2) =~= Seq::<char>::empty());
                assert(percent_pieces(chars@) =~= done + prepend_to_first(
                    chars@.subrange(i + 2, i + 2),
                    percent_pieces(chars@.skip(i + 2)),
                ));
            }
            first = false;
            i += 2;
            start = i;
        } else {
            proof {
                assert(rest[0] == chars@[i as int]);
                assert(rest.skip(1) =~= chars@.skip(i + 1));
                lemma_percent_pieces_nonempty(chars@.skip(i + 1));
                let tail = percent_pieces(chars@.skip(i + 1));
                assert(percent_pieces(rest) == prepend_to_first(seq![chars@[i as int]], tail));
                assert(chars@.subrange(start as int, i + 1) =~= cur + seq![chars@[i as int]]);
                assert((cur + seq![chars@[i as int]]) + tail[0] =~= cur + (seq![chars@[i as int]]
                    + tail[0]));
                assert(prepend_to_first(cur, percent_pieces(rest)) =~= prepend_to_first(
                    chars@.subrange(start as int, i + 1),
                    tail,
                ));
            }
            i += 1;
        }
    }
    let ghost cur = chars@.subrange(start as int, i as int);
    append_piece(&pattern, &chars, start, i, &mut joined, first);
    proof {
        assert(chars@.skip(i as int) =~= Seq::<char>::empty());
        assert(prepend_to_first(cur, seq![Seq::<char>::empty()]) =~= seq![cur]);
        assert(percent_pieces(chars@) =~= done.push(cur));
        assert(pieces_without_codes(done.push(cur)) =~= pieces_without_codes(done).push(
            without_field_codes(cur),
        ));
        if done.len() > 0 {
            crate::text::lemma_join_push(
                pieces_without_codes(done),
                seq![PERCENT_MARK],
                without_field_codes(cur),
            );
        } else {
            assert(pieces_without_codes(done.push(cur)) =~= seq![without_field_codes(cur)]);
        }
    }
    let stripped = string_of(&joined, 0, joined.len());
    assert(joined@.subrange(0, joined.len() as int) =~= joined@);
    Some(tidy_stripped_exec(stripped.as_str()))
}

/// The last component of a list of path components that is neither empty
/// nor `.`.
pub open spec fn last_named_component(parts: Seq<Seq<char>>) -> Option<Seq<char>>
    decreases parts.len(),
{
    if parts.len() == 0 {
        None
    } else if parts.last().len() == 0 || parts.last() == seq!['.'] {
        last_named_component(parts.drop_last())
    } else {
        Some(parts.last())
    }
}

/// The final component of a `/`-separated path, as `Path::file_name` gives
/// it: empty and `.` components do not count, and a path that ends in `..`
/// has none.
pub open spec fn file_name(path: Seq<char>) -> Option<Seq<char>> {
    match last_named_component(split_on(path, '/')) {
        Some(c) => if c == seq!['.', '.'] {
            None
        } else {
            Some(c)
        },
        None => None,
    }
}

/// Bounds of the final component of `p`, if it has one.
fn file_name_bounds(p: &Vec<char>) -> (r: Option<(usize, usize)>)
    ensures
        match r {
            Some((a, b)) => a <= b <= p@.len() && file_name(p@) == Some(p@.subrange(a as int, b as int)),
            None => file_name(p@) is None,
        },
{
    let mut end = p.len();
    assert(p@.take(end as int) =~= p@);
    loop
        invariant
            end <= p.len(),
            last_named_component(split_on(p@, '/')) == last_named_component(
                split_on(p@.take(end as int), '/'),
            ),
        decreases end,
    {
        let ghost q = p@.take(end as int);
        let mut start = end;
        while start > 0 && p[start - 1] != '/'
            invariant
                start <= end <= p.len(),
                forall|j: int| start <= j < end ==> #[trigger] p@[j] != '/',
            decreases start,
        {
            start -= 1;
        }
        proof {
            assert forall|j: int| start <= j < q.len() implies #[trigger] q[j] != '/' by {
                assert(q[j] == p@[j]);
            }
            if start > 0 {
                assert(q[start - 1] == p@[start - 1]);
            }
            lemma_split_last_piece(q, '/', start as int);
            assert(q.skip(start as int) =~= p@.subrange(start as int, end as int));
            if start > 0 {
                assert(q.take(start - 1) =~= p@.take(start - 1));
                assert(split_on(q, '/').drop_last() =~= split_on(p@.take(start - 1), '/'));
            } else {
                assert(seq![q.skip(0)].drop_last() =~= Seq::<Seq<char>>::empty());
            }
        }
        let ghost comp = p@.subrange(start as int, end as int);
        let is_dot = end - start == 1 && p[start] == '.';
        proof {
            if is_dot {
                assert(comp =~= seq!['.']);
            } else if end > start {
                assert(comp.len() != 0);
                if end - start == 1 {
                    assert(comp[0] == p@[start as int]);
                }
                assert(comp != seq!['.']);
            }
        }
        if end > start && !is_dot {
            if end - start == 2 && p[start] == '.' && p[start + 1] == '.' {
                assert(comp =~= seq!['.', '.']);
                return None;
            }
            proof {
                if end - start == 2 {
                    assert(comp[0] == p@[start as int] && comp[1] == p@[start + 1]);
                    assert(comp != seq!['.', '.']);
                }
            }
            return Some((start, end));
        }
        if start == 0 {
            proof {
                let parts = split_on(q, '/');
                assert(parts == seq![comp]);
                assert(parts.drop_last() =~= Seq::<Seq<char>>::empty());
                assert(last_named_component(parts.drop_last()) is None);
            }
            return None;
        }
        end = start - 1;
    }
}

/// Length of the longest prefix of `t` that holds no whitespace.
pub open spec fn ws_free_prefix_len(t: Seq<char>) -> nat
    decreases t.len(),
{
    if t.len() == 0 || is_ws(t[0]) {
        0
    } else {
        1 + ws_free_prefix_len(t.drop_first())
    }
}

proof fn lemma_ws_free_prefix_len(t: Seq<char>, k: int)
    requires
        0 <= k <= t.len(),
        forall|j: int| 0 <= j < k ==> !is_ws(#[trigger] t[j]),
        k == t.len() || is_ws(t[k]),
    ensures
        ws_free_prefix_len(t) == k,
    decreases k,
{
    if k > 0 {
        let u = t.drop_first();
        assert(!is_ws(t[0]));
        assert forall|j: int| 0 <= j < k - 1 implies !is_ws(#[trigger] u[j]) by {
            assert(u[j] == t[j + 1]);
        }
        if k < t.len() {
            assert(u[k - 1] == t[k]);
        }
        lemma_ws_free_prefix_len(u, k - 1);
    }
}

/// The command word of an `Exec=` line: everything of the trimmed line up
/// to its first whitespace.
pub open spec fn exec_head(exec: Seq<char>) -> Seq<char> {
    trim(exec).take(ws_free_prefix_len(trim(exec)) as int)
}

/// The arguments of an `Exec=` line: what follows the first whitespace of
/// the trimmed line, trimmed.
pub open spec fn exec_args(exec: Seq<char>) -> Seq<char> {
    let t = trim(exec);
    let k = ws_free_prefix_len(t);
    if k < t.len() {
        trim(t.skip(k + 1 as int))
    } else {
        Seq::<char>::empty()
    }
}

/// The command word without its directory: its file name where it has
/// one, else the command word itself.
pub open spec fn exec_basename(exec: Seq<char>) -> Seq<char> {
    match file_name(exec_head(exec)) {
        Some(n) => n,
        None => exec_head(exec),
    }
}

/// The "basename args" label of an `Exec=` line.
pub open spec fn exec_label(exec: Seq<char>) -> Seq<char> {
    if exec_args(exec).len() == 0 {
        exec_basename(exec)
    } else {
        exec_basename(exec) + seq![' '] + exec_args(exec)
    }
}

/// Return `(basename, rest)` of an `Exec=` line so callers can render
/// "firefox --new-window" as a disambiguator without the full path.
pub fn split_basename_and_args(exec: &str) -> (res: (String, String))
    ensures
        res.0@ == exec_basename(exec@),
        res.1@ == exec_args(exec@),
{
    let chars = to_chars(exec);
    let (a, b) = trim_bounds(&chars, 0, chars.len());
    assert(chars@.subrange(0, chars.len() as int) =~= exec@);
    let ghost t = chars@.subrange(a as int, b as int);
    let mut k = a;
    while k < b && !is_whitespace(chars[k])
        invariant
            a <= k <= b <= chars.len(),
            forall|j: int| a <= j < k ==> !is_ws(#[trigger] chars@[j]),
        decreases b - k,
    {
        k += 1;
    }
    proof {
        assert forall|j: int| 0 <= j < k - a implies !is_ws(#[trigger] t[j]) by {
            assert(t[j] == chars@[a + j]);
        }
        if k < b {
            assert(t[k - a] == chars@[k as int]);
        }
        lemma_ws_free_prefix_len(t, k - a);
        assert(t.take(k - a) =~= chars@.subrange(a as int, k as int));
    }
    let head = sub_chars(&chars, a, k);
    let args = if k < b {
        let (c, d) = trim_bounds(&chars, k + 1, b);
        assert(t.skip(k - a + 1) =~= chars@.subrange(k + 1, b as int));
        string_of(&chars, c, d)
    } else {
        String::new()
    };
    let base = match file_name_bounds(&head) {
        Some((c, d)) => string_of(&head, c, d),
        None => string_of(&head, 0, head.len()),
    };
    assert(head@.subrange(0, head.len() as int) =~= head@);
    (base, args)
}

/// Render `basename + args` as a disambiguation suffix, e.g.
/// `firefox --new-window`.
pub fn exec_display(exec: &str) -> (res: String)
    ensures
        res@ == exec_label(exec@),
{
    let (base, args) = split_basename_and_args(exec);
    if args.as_str().unicode_len() == 0 {
        base
    } else {
        let mut out = base;
        push_char(&mut out, ' ');
        out.append(args.as_str());
        out
    }
}

/// A stripped `Exec=` line holds whitespace only as single spaces between
/// words: none at the ends, none doubled; and the final trim changes
/// nothing.
pub proof fn law_stripped_exec_single_spaced(exec: Seq<char>)
    ensures
        single_spaced(stripped_exec(exec)),
        stripped_exec(exec) == collapse_ws(
            restore_percents(join(pieces_without_codes(percent_pieces(exec)), seq![PERCENT_MARK])),
        ),
{
    lemma_collapse_ws_single_spaced(
        restore_percents(join(pieces_without_codes(percent_pieces(exec)), seq![PERCENT_MARK])),
    );
}

proof fn lemma_no_percent_one_piece(s: Seq<char>)
    requires
        forall|i: int| 0 <= i < s.len() ==> #[trigger] s[i] != '%',
    ensures
        percent_pieces(s) == seq![s],
        without_field_codes(s) == s,
    decreases s.len(),
{
    if s.len() == 0 {
        assert(s =~= Seq::<char>::empty());
        assert(percent_pieces(s) =~= seq![s]);
    } else {
        let t = s.skip(1);
        assert forall|i: int| 0 <= i < t.len() implies #[trigger] t[i] != '%' by {
            assert(t[i] == s[i + 1]);
        }
        lemma_no_percent_one_piece(t);
        assert(s[0] != '%');
        assert(seq![s[0]] + t =~= s);
        assert(prepend_to_first(seq![s[0]], seq![t]) =~= seq![s]);
    }
}

/// The label of an `Exec=` line in terms of the line itself: with `t` the
/// trimmed line, a line without whitespace is labelled by its base name
/// alone; otherwise, with `k` the position of the first whitespace of `t`,
/// the label is the base name of `t[..k]`, one space, and the whole rest of
/// the line after `k`, trimmed, which is never empty. No argument word is
/// dropped.
pub proof fn law_label_is_basename_and_whole_arguments(exec: Seq<char>)
    ensures
        (forall|j: int| 0 <= j < trim(exec).len() ==> !is_ws(#[trigger] trim(exec)[j])) ==> {
            &&& exec_args(exec).len() == 0
            &&& exec_basename(exec) == match file_name(trim(exec)) {
                Some(n) => n,
                None => trim(exec),
            }
            &&& exec_label(exec) == exec_basename(exec)
        },
        forall|k: int|
            0 <= k < trim(exec).len() && is_ws(#[trigger] trim(exec)[k]) && (forall|j: int|
                0 <= j < k ==> !is_ws(trim(exec)[j])) ==> {
                &&& exec_args(exec) == trim(trim(exec).skip(k + 1))
                &&& exec_args(exec).len() > 0
                &&& exec_basename(exec) == match file_name(trim(exec).take(k)) {
                    Some(n) => n,
                    None => trim(exec).take(k),
                }
                &&& exec_label(exec) == exec_basename(exec) + seq![' '] + trim(
                    trim(exec).skip(k + 1),
                )
            },
{
    let t = trim(exec);
    lemma_trim_ends(exec);
    if forall|j: int| 0 <= j < t.len() ==> !is_ws(#[trigger] t[j]) {
        lemma_ws_free_prefix_len(t, t.len() as int);
        assert(t.take(t.len() as int) =~= t);
    }
    assert forall|k: int|
        0 <= k < t.len() && is_ws(#[trigger] t[k]) && (forall|j: int| 0 <= j < k ==> !is_ws(t[j]))
        implies {
        &&& exec_args(exec) == trim(t.skip(k + 1))
        &&& exec_args(exec).len() > 0
        &&& exec_basename(exec) == match file_name(t.take(k)) {
            Some(n) => n,
            None => t.take(k),
        }
        &&& exec_label(exec) == exec_basename(exec) + seq![' '] + trim(t.skip(k + 1))
    } by {
        lemma_ws_free_prefix_len(t, k);
        assert(k < t.len() - 1);
        let r = t.skip(k + 1);
        assert(r[r.len() - 1] == t.last());
        lemma_trim_nonempty(r, r.len() - 1);
    }
}

/// Lines with the same base name but different arguments get different
/// labels: the label tells apart every difference in the arguments.
pub proof fn law_labels_tell_apart_arguments(e1: Seq<char>, e2: Seq<char>)
    requires
        exec_basename(e1) == exec_basename(e2),
        exec_args(e1) != exec_args(e2),
    ensures
        exec_label(e1) != exec_label(e2),
{
    let b = exec_basename(e1);
    let a1 = exec_args(e1);
    let a2 = exec_args(e2);
    if a1.len() > 0 && a2.len() > 0 {
        if exec_label(e1) == exec_label(e2) {
            assert(a1.len() == a2.len());
            assert forall|i: int| 0 <= i < a1.len() implies a1[i] == a2[i] by {
                assert(exec_label(e1)[b.len() + 1 + i] == a1[i]);
                assert(exec_label(e2)[b.len() + 1 + i] == a2[i]);
            }
            assert(a1 =~= a2);
        }
    } else if a1.len() == 0 {
        if a2.len() == 0 {
            assert(a1 =~= a2);
        }
        assert(exec_label(e2).len() > exec_label(e1).len());
    } else {
        assert(a2.len() == 0);
        assert(exec_label(e1).len() > exec_label(e2).len());
    }
}

/// A stripped line is already tidy: collapsing its whitespace again (and
/// trimming it) changes nothing.
pub proof fn law_stripped_exec_is_collapsed(exec: Seq<char>)
    ensures
        collapse_ws(stripped_exec(exec)) == stripped_exec(exec),
        trim(collapse_ws(stripped_exec(exec))) == stripped_exec(exec),
{
    let r = restore_percents(join(pieces_without_codes(percent_pieces(exec)), seq![PERCENT_MARK]));
    lemma_collapse_ws_single_spaced(r);
    lemma_collapse_ws_idempotent(r);
}

/// A line without `%` and without [`PERCENT_MARK`] keeps its text:
/// stripping only collapses and trims its whitespace.
pub proof fn law_line_without_percent_is_only_tidied(exec: Seq<char>)
    requires
        forall|i: int| 0 <= i < exec.len() ==> #[trigger] exec[i] != '%' && exec[i] != PERCENT_MARK,
    ensures
        stripped_exec(exec) == collapse_ws(exec),
{
    lemma_no_percent_one_piece(exec);
    assert(pieces_without_codes(seq![exec]) =~= seq![exec]);
    assert(restore_percents(exec) =~= exec);
    lemma_collapse_ws_single_spaced(exec);
}

} // verus!

