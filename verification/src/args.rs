//! Minimal command-line argument parsing for desx.
//!
//! The only option is `--category`/`--categories`, which takes a
//! comma-separated filter value (see [`crate::category_filter`]). The value
//! may be attached with `=` (`--category=game`) or given as the next
//! argument (`--category game`). Repeated flags are rejected to keep the
//! include/exclude semantics unambiguous.
use vstd::prelude::*;

use crate::category_filter::{
    opt_filter_view, parse_filter_spec, CategoryFilter, CategoryFilterView,
};
use crate::text::{chars_eq, string_of, to_chars};

verus! {

broadcast use vstd::string::to_string_from_display_ensures_for_str;

#[derive(Debug, Default, PartialEq, Eq)]
pub struct Args {
    pub category_filter: Option<CategoryFilter>,
}

/// `s` with `prefix` removed from its start as many times as it occurs
/// there, as `str::trim_start_matches` does.
pub open spec fn strip_repeated_prefix(s: Seq<char>, prefix: Seq<char>) -> Seq<char>
    decreases s.len(),
{
    if 0 < prefix.len() <= s.len() && s.take(prefix.len() as int) == prefix {
        strip_repeated_prefix(s.skip(prefix.len() as int), prefix)
    } else {
        s
    }
}

/// Whether `s` begins with `prefix`.
pub open spec fn has_prefix(s: Seq<char>, prefix: Seq<char>) -> bool {
    prefix.len() <= s.len() && s.take(prefix.len() as int) == prefix
}

/// The message for a flag given more than once.
pub open spec fn repeated_message() -> Seq<char> {
    "--category may only be given once"@
}

/// Reads the arguments from position `i` on, with `raw` the filter value
/// read so far: the filter value in the end, or the message of the first
/// problem.
pub open spec fn scan_args(args: Seq<Seq<char>>, i: nat, raw: Option<Seq<char>>) -> Result<
    Option<Seq<char>>,
    Seq<char>,
>
    decreases args.len() - i,
{
    if i >= args.len() {
        Ok(raw)
    } else {
        let arg = args[i as int];
        if arg == "--category"@ || arg == "--categories"@ {
            if i + 1 < args.len() {
                if raw is Some {
                    Err(repeated_message())
                } else {
                    scan_args(args, i + 2, Some(args[i + 1 as int]))
                }
            } else {
                Err(arg + " requires a value"@)
            }
        } else if has_prefix(arg, "--category="@) || has_prefix(arg, "--categories="@) {
            let value = if has_prefix(arg, "--category="@) {
                strip_repeated_prefix(arg, "--category="@)
            } else {
                strip_repeated_prefix(arg, "--categories="@)
            };
            if raw is Some {
                Err(repeated_message())
            } else {
                scan_args(args, i + 1, Some(value))
            }
        } else {
            Err("unknown argument: "@ + arg)
        }
    }
}

/// What parsing the arguments gives: the filter, or the error message.
pub open spec fn parse_args_spec(args: Seq<Seq<char>>) -> Result<Option<CategoryFilterView>, Seq<char>> {
    match scan_args(args, 0, None) {
        Err(e) => Err(e),
        Ok(None) => Ok(None),
        Ok(Some(raw)) => parse_filter_spec(raw),
    }
}

/// The views of the arguments.
pub open spec fn args_view(args: Seq<&str>) -> Seq<Seq<char>> {
    args.map_values(|a: &str| a@)
}

/// The view of a parse result.
pub open spec fn args_result_view(r: Result<Args, String>) -> Result<
    Option<CategoryFilterView>,
    Seq<char>,
> {
    match r {
        Ok(a) => Ok(opt_filter_view(a.category_filter)),
        Err(e) => Err(e@),
    }
}

/// `s` with `prefix` removed from its start as often as it occurs there.
fn strip_prefix_repeatedly(s: &Vec<char>, prefix: &Vec<char>) -> (out: String)
    ensures
        out@ == strip_repeated_prefix(s@, prefix@),
{
    let mut pos: usize = 0;
    let plen = prefix.len();
    assert(s@.skip(0) =~= s@);
    loop
        invariant
            pos <= s.len(),
            plen == prefix@.len(),
            strip_repeated_prefix(s@, prefix@) == strip_repeated_prefix(
                s@.skip(pos as int),
                prefix@,
            ),
        decreases s.len() - pos,
    {
        let rest = s.len() - pos;
        let ghost r = s@.skip(pos as int);
        if plen == 0 || plen > rest {
            assert(s@.subrange(pos as int, s.len() as int) =~= r);
            return string_of(s, pos, s.len());
        }
        let mut j: usize = 0;
        while j < plen
            invariant
                j <= plen,
                plen == prefix@.len(),
                plen <= s.len() - pos,
                r == s@.skip(pos as int),
                pos <= s.len(),
                strip_repeated_prefix(s@, prefix@) == strip_repeated_prefix(r, prefix@),
                forall|m: int| 0 <= m < j ==> r[m] == prefix@[m],
            decreases plen - j,
        {
            if s[pos + j] != prefix[j] {
                assert(r.take(plen as int)[j as int] != prefix@[j as int]);
                assert(s@.subrange(pos as int, s.len() as int) =~= r);
                return string_of(s, pos, s.len());
            }
            j += 1;
        }
        assert(r.take(plen as int) =~= prefix@);
        assert(r.skip(plen as int) =~= s@.skip(pos + plen));
        pos = pos + plen;
    }
}

/// Whether `s` begins with `prefix`, on character vectors.
fn begins_with(s: &Vec<char>, prefix: &Vec<char>) -> (b: bool)
    ensures
        b == has_prefix(s@, prefix@),
{
    crate::text::starts_with(s, prefix)
}

/// Parse a list of argument strings (excluding the program name).
pub fn parse(args: &[&str]) -> (res: Result<Args, String>)
    ensures
        args_result_view(res) == parse_args_spec(args_view(args@)),
{
    let ghost a = args_view(args@);
    let category = to_chars("--category");
    let categories = to_chars("--categories");
    let category_eq = to_chars("--category=");
    let categories_eq = to_chars("--categories=");
    let mut raw: Option<String> = None;
    let mut i: usize = 0;
    while i < args.len()
        invariant
            i <= args@.len(),
            a == args_view(args@),
            category@ == "--category"@,
            categories@ == "--categories"@,
            category_eq@ == "--category="@,
            categories_eq@ == "--categories="@,
            scan_args(a, 0, None) == scan_args(
                a,
                i as nat,
                match raw {
                    Some(r) => Some(r@),
                    None => None,
                },
            ),
        decreases args.len() - i,
    {
        let arg = args[i];
        let chars = to_chars(arg);
        assert(a[i as int] == arg@);
        let value;
        if chars_eq(&chars, &category) || chars_eq(&chars, &categories) {
            if i + 1 < args.len() {
                let next = args[i + 1];
                assert(a[i + 1] == next@);
                value = next.to_string();
                i += 2;
            } else {
                let mut msg = arg.to_string();
                msg.append(" requires a value");
                return Err(msg);
            }
        } else if begins_with(&chars, &category_eq) {
            value = strip_prefix_repeatedly(&chars, &category_eq);
            i += 1;
        } else if begins_with(&chars, &categories_eq) {
            value = strip_prefix_repeatedly(&chars, &categories_eq);
            i += 1;
        } else {
            let mut msg = "unknown argument: ".to_string();
            msg.append(arg);
            return Err(msg);
        }
        if raw.is_some() {
            return Err("--category may only be given once".to_string());
        }
        raw = Some(value);
    }
    let category_filter = match raw {
        Some(r) => match CategoryFilter::parse(r.as_str()) {
            Ok(f) => f,
            Err(e) => {
                return Err(e);
            },
        },
        None => None,
    };
    Ok(Args { category_filter })
}

/// `--categories` is an alias of `--category`: given the same value they
/// parse alike.
pub proof fn law_flag_aliases_agree(value: Seq<char>)
    ensures
        parse_args_spec(seq!["--category"@, value]) == parse_args_spec(
            seq!["--categories"@, value],
        ),
        parse_args_spec(seq!["--category"@, value]) == parse_filter_spec(value),
{
    reveal_strlit("--category");
    reveal_strlit("--categories");
    let a = seq!["--category"@, value];
    let b = seq!["--categories"@, value];
    assert(scan_args(a, 2, Some(value)) == Ok::<Option<Seq<char>>, Seq<char>>(Some(value)));
    assert(scan_args(b, 2, Some(value)) == Ok::<Option<Seq<char>>, Seq<char>>(Some(value)));
}

/// A value attached with `=` parses as the same value given as the next
/// argument, unless the value itself begins with the prefix (which is
/// removed again, as often as it repeats).
pub proof fn law_attached_value_agrees(value: Seq<char>)
    requires
        !has_prefix(value, "--category="@),
        !has_prefix(value, "--categories="@),
    ensures
        parse_args_spec(seq!["--category="@ + value]) == parse_args_spec(
            seq!["--category"@, value],
        ),
        parse_args_spec(seq!["--categories="@ + value]) == parse_args_spec(
            seq!["--category"@, value],
        ),
{
    reveal_strlit("--category");
    reveal_strlit("--categories");
    reveal_strlit("--category=");
    reveal_strlit("--categories=");
    let p = "--category="@;
    let arg = p + value;
    assert(arg.take(p.len() as int) =~= p);
    assert(arg.skip(p.len() as int) =~= value);
    assert(arg != "--category"@) by {
        if arg.len() == 10 {
            assert(false);
        }
    }
    assert(arg != "--categories"@) by {
        if arg.len() == 12 {
            assert(arg[10] == '=');
            assert("--categories"@ =~= seq!['-', '-', 'c', 'a', 't', 'e', 'g', 'o', 'r', 'i', 'e', 's']);
        }
    }
    assert(strip_repeated_prefix(value, p) == value);
    assert(strip_repeated_prefix(arg, p) == value);
    assert(scan_args(seq![arg], 1, Some(value)) == Ok::<Option<Seq<char>>, Seq<char>>(
        Some(value),
    ));
    let q = "--categories="@;
    let arg2 = q + value;
    assert(arg2.take(q.len() as int) =~= q);
    assert(arg2.skip(q.len() as int) =~= value);
    assert(arg2 != "--category"@) by {
        if arg2.len() == 10 {
            assert(false);
        }
    }
    assert(arg2 != "--categories"@) by {
        if arg2.len() == 12 {
            assert(false);
        }
    }
    assert(!has_prefix(arg2, p)) by {
        if has_prefix(arg2, p) {
            assert(arg2.take(p.len() as int)[10] == p[10]);
            assert(p[10] == '=');
            assert(arg2[10] == 'i');
        }
    }
    assert(strip_repeated_prefix(value, q) == value);
    assert(strip_repeated_prefix(arg2, q) == value);
    assert(scan_args(seq![arg2], 1, Some(value)) == Ok::<Option<Seq<char>>, Seq<char>>(
        Some(value),
    ));
    law_flag_aliases_agree(value);
}

/// The filter flag in its separate form, whose value is the next argument.
pub open spec fn is_separate_flag(arg: Seq<char>) -> bool {
    arg == "--category"@ || arg == "--categories"@
}

/// The filter flag with its value attached after `=`.
pub open spec fn is_attached_flag(arg: Seq<char>) -> bool {
    has_prefix(arg, "--category="@) || has_prefix(arg, "--categories="@)
}

/// Reading a list that ends cleanly leaves the arguments after it to be
/// read with the value it found.
proof fn lemma_scan_concat(
    a: Seq<Seq<char>>,
    b: Seq<Seq<char>>,
    i: nat,
    r: Option<Seq<char>>,
    x: Option<Seq<char>>,
)
    requires
        i <= a.len(),
        scan_args(a, i, r) == Ok::<Option<Seq<char>>, Seq<char>>(x),
    ensures
        scan_args(a + b, i, r) == scan_args(a + b, a.len(), x),
    decreases a.len() - i,
{
    let ab = a + b;
    if i < a.len() {
        let arg = a[i as int];
        assert(ab[i as int] == arg);
        if arg == "--category"@ || arg == "--categories"@ {
            assert(i + 1 < a.len());
            assert(ab[i + 1 as int] == a[i + 1 as int]);
            lemma_scan_concat(a, b, i + 2, Some(a[i + 1 as int]), x);
        } else {
            let value = if has_prefix(arg, "--category="@) {
                strip_repeated_prefix(arg, "--category="@)
            } else {
                strip_repeated_prefix(arg, "--categories="@)
            };
            lemma_scan_concat(a, b, i + 1, Some(value), x);
        }
    }
}

/// Once the arguments have given a filter value, a further filter flag in
/// any form is refused: a separate flag with nothing after it reports the
/// missing value, every other form reports the repetition.
pub proof fn law_second_flag_is_refused(
    first: Seq<Seq<char>>,
    rest: Seq<Seq<char>>,
    value: Seq<char>,
)
    requires
        scan_args(first, 0, None) == Ok::<Option<Seq<char>>, Seq<char>>(Some(value)),
        rest.len() > 0,
        is_separate_flag(rest[0]) || is_attached_flag(rest[0]),
    ensures
        parse_args_spec(first + rest) == if is_separate_flag(rest[0]) && rest.len() == 1 {
            Err::<Option<CategoryFilterView>, Seq<char>>(rest[0] + " requires a value"@)
        } else {
            Err::<Option<CategoryFilterView>, Seq<char>>(repeated_message())
        },
{
    lemma_scan_concat(first, rest, 0, None, Some(value));
    let ab = first + rest;
    assert(ab[first.len() as int] == rest[0]);
}

/// Two filter flags with attached values are refused, whatever the values.
pub proof fn law_two_attached_flags_are_refused(a: Seq<char>, b: Seq<char>)
    ensures
        parse_args_spec(seq!["--category="@ + a, "--category="@ + b]) == Err::<
            Option<CategoryFilterView>,
            Seq<char>,
        >(repeated_message()),
        parse_args_spec(seq!["--categories="@ + a, "--category="@ + b]) == Err::<
            Option<CategoryFilterView>,
            Seq<char>,
        >(repeated_message()),
{
    reveal_strlit("--category");
    reveal_strlit("--categories");
    reveal_strlit("--category=");
    reveal_strlit("--categories=");
    let p = "--category="@;
    let q = "--categories="@;
    let x = p + a;
    let y = p + b;
    let z = q + a;
    assert(x.take(p.len() as int) =~= p);
    assert(y.take(p.len() as int) =~= p);
    assert(z.take(q.len() as int) =~= q);
    assert(x != "--category"@ && x != "--categories"@) by {
        if x.len() == 12 {
            assert(x[10] == '=');
            assert("--categories"@ =~= seq!['-', '-', 'c', 'a', 't', 'e', 'g', 'o', 'r', 'i', 'e', 's']);
        }
    }
    assert(z != "--category"@ && z != "--categories"@) by {
        if z.len() == 12 || z.len() == 10 {
            assert(false);
        }
    }
    assert(is_attached_flag(y));
    assert(y != "--category"@ && y != "--categories"@) by {
        if y.len() == 12 {
            assert(y[10] == '=');
            assert("--categories"@ =~= seq!['-', '-', 'c', 'a', 't', 'e', 'g', 'o', 'r', 'i', 'e', 's']);
        }
    }
    assert(!is_separate_flag(y));
    assert(scan_args(seq![x], 0, None) == Ok::<Option<Seq<char>>, Seq<char>>(
        Some(strip_repeated_prefix(x, p)),
    )) by {
        assert(scan_args(seq![x], 1, Some(strip_repeated_prefix(x, p))) == Ok::<
            Option<Seq<char>>,
            Seq<char>,
        >(Some(strip_repeated_prefix(x, p))));
    }
    assert(seq![x] + seq![y] =~= seq![x, y]);
    law_second_flag_is_refused(seq![x], seq![y], strip_repeated_prefix(x, p));
    let v = if has_prefix(z, p) {
        strip_repeated_prefix(z, p)
    } else {
        strip_repeated_prefix(z, q)
    };
    assert(scan_args(seq![z], 0, None) == Ok::<Option<Seq<char>>, Seq<char>>(Some(v))) by {
        assert(scan_args(seq![z], 1, Some(v)) == Ok::<Option<Seq<char>>, Seq<char>>(Some(v)));
    }
    assert(seq![z] + seq![y] =~= seq![z, y]);
    law_second_flag_is_refused(seq![z], seq![y], v);
}

/// A second filter flag is refused, whatever the values.
pub proof fn law_repeated_flag_is_refused(first: Seq<char>, second: Seq<char>)
    ensures
        parse_args_spec(seq!["--category"@, first, "--category"@, second]) == Err::<
            Option<crate::category_filter::CategoryFilterView>,
            Seq<char>,
        >(repeated_message()),
{
    reveal_strlit("--category");
    let a = seq!["--category"@, first, "--category"@, second];
    assert(a[2] == "--category"@);
    assert(scan_args(a, 2, Some(first)) == Err::<Option<Seq<char>>, Seq<char>>(
        repeated_message(),
    ));
}

} // verus!
