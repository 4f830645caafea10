//! Parse and apply `--category`/`--categories` filters.
//!
//! Filter values are comma-separated. Each value is either an include
//! (`game`) or an exclude (`-game`, prefixed with `-`). Include and
//! exclude values cannot be mixed in a single invocation. Matching against
//! a `.desktop` entry's `Categories=` field is case-insensitive.
use vstd::prelude::*;

use crate::desktop_entry::{strings_view, DesktopApp, DesktopAppView};
use crate::text::{lowercase, split_on, string_of, to_chars, to_lowercase, trim, trim_bounds};

verus! {

broadcast use vstd::string::to_string_from_display_ensures_for_str;

/// A parsed category filter. Either keeps only apps in the listed
/// categories (`Include`) or drops apps in the listed categories
/// (`Exclude`). Category names are stored lowercased for case-insensitive
/// comparison.
#[derive(Debug, Clone, PartialEq, Eq)]
pub enum CategoryFilter {
    Include(Vec<String>),
    Exclude(Vec<String>),
}

/// The mathematical content of a [`CategoryFilter`].
pub enum CategoryFilterView {
    Include(Seq<Seq<char>>),
    Exclude(Seq<Seq<char>>),
}

impl View for CategoryFilter {
    type V = CategoryFilterView;

    open spec fn view(&self) -> CategoryFilterView {
        match self {
            CategoryFilter::Include(v) => CategoryFilterView::Include(strings_view(v@)),
            CategoryFilter::Exclude(v) => CategoryFilterView::Exclude(strings_view(v@)),
        }
    }
}

/// The view of an optional filter.
pub open spec fn opt_filter_view(f: Option<CategoryFilter>) -> Option<CategoryFilterView> {
    match f {
        Some(f) => Some(f@),
        None => None,
    }
}

/// Whether some category of the app, lowercased, is one of `wanted`.
pub open spec fn has_listed_category(categories: Seq<Seq<char>>, wanted: Seq<Seq<char>>) -> bool {
    exists|i: int, j: int|
        0 <= i < categories.len() && 0 <= j < wanted.len() && #[trigger] wanted[j]
            == lowercase(#[trigger] categories[i])
}

impl CategoryFilterView {
    /// Whether an app passes the filter.
    pub open spec fn admits(self, app: DesktopAppView) -> bool {
        match self {
            CategoryFilterView::Include(cats) => has_listed_category(app.categories, cats),
            CategoryFilterView::Exclude(cats) => !has_listed_category(app.categories, cats),
        }
    }
}

/// A token that asks to exclude a category: it starts with `-` once
/// trimmed.
pub open spec fn is_exclusion(token: Seq<char>) -> bool {
    trim(token).len() > 0 && trim(token)[0] == '-'
}

/// The category an exclusion token names: what follows the `-`, trimmed.
pub open spec fn exclusion_name(token: Seq<char>) -> Seq<char> {
    trim(trim(token).drop_first())
}

/// A `-` with no category name after it.
pub open spec fn is_bare_dash(token: Seq<char>) -> bool {
    is_exclusion(token) && exclusion_name(token).len() == 0
}

/// Whether some token is a bare `-`.
pub open spec fn has_bare_dash(tokens: Seq<Seq<char>>) -> bool
    decreases tokens.len(),
{
    tokens.len() > 0 && (has_bare_dash(tokens.drop_last()) || is_bare_dash(tokens.last()))
}

/// `acc` after reading one more token for the included categories.
pub open spec fn include_step(acc: Seq<Seq<char>>, token: Seq<char>) -> Seq<Seq<char>> {
    if trim(token).len() > 0 && !is_exclusion(token) {
        acc.push(lowercase(trim(token)))
    } else {
        acc
    }
}

/// `acc` after reading one more token for the excluded categories.
pub open spec fn exclude_step(acc: Seq<Seq<char>>, token: Seq<char>) -> Seq<Seq<char>> {
    if is_exclusion(token) {
        acc.push(lowercase(exclusion_name(token)))
    } else {
        acc
    }
}

/// The included categories of the tokens, lowercased, in order.
pub open spec fn included_names(tokens: Seq<Seq<char>>) -> Seq<Seq<char>>
    decreases tokens.len(),
{
    if tokens.len() == 0 {
        Seq::<Seq<char>>::empty()
    } else {
        include_step(included_names(tokens.drop_last()), tokens.last())
    }
}

/// The excluded categories of the tokens, lowercased, in order.
pub open spec fn excluded_names(tokens: Seq<Seq<char>>) -> Seq<Seq<char>>
    decreases tokens.len(),
{
    if tokens.len() == 0 {
        Seq::<Seq<char>>::empty()
    } else {
        exclude_step(excluded_names(tokens.drop_last()), tokens.last())
    }
}

/// The message for a bare `-`.
pub open spec fn bare_dash_message() -> Seq<char> {
    "category exclusion is missing a name (got bare '-')"@
}

/// The message for a filter that both includes and excludes.
pub open spec fn mixed_message() -> Seq<char> {
    "cannot mix included and excluded categories in the same filter"@
}

/// What parsing the raw value of `--category` gives.
pub open spec fn parse_filter_spec(raw: Seq<char>) -> Result<Option<CategoryFilterView>, Seq<char>> {
    let tokens = split_on(raw, ',');
    let inc = included_names(tokens);
    let exc = excluded_names(tokens);
    if has_bare_dash(tokens) {
        Err(bare_dash_message())
    } else if inc.len() == 0 && exc.len() == 0 {
        Ok(None)
    } else if exc.len() == 0 {
        Ok(Some(CategoryFilterView::Include(inc)))
    } else if inc.len() == 0 {
        Ok(Some(CategoryFilterView::Exclude(exc)))
    } else {
        Err(mixed_message())
    }
}

/// The view of a parse result.
pub open spec fn parse_result_view(r: Result<Option<CategoryFilter>, String>) -> Result<
    Option<CategoryFilterView>,
    Seq<char>,
> {
    match r {
        Ok(f) => Ok(opt_filter_view(f)),
        Err(e) => Err(e@),
    }
}

proof fn lemma_push_view(v: Seq<String>, s: String)
    ensures
        strings_view(v.push(s)) == strings_view(v).push(s@),
{
    assert(strings_view(v.push(s)) =~= strings_view(v).push(s@));
}

/// Reads the token `chars[lo..hi]` into the lists; false on a bare `-`.
fn absorb_token(
    chars: &Vec<char>,
    lo: usize,
    hi: usize,
    includes: &mut Vec<String>,
    excludes: &mut Vec<String>,
) -> (ok: bool)
    requires
        lo <= hi <= chars.len(),
    ensures
        ok == !is_bare_dash(chars@.subrange(lo as int, hi as int)),
        ok ==> strings_view(final(includes)@) == include_step(
            strings_view(old(includes)@),
            chars@.subrange(lo as int, hi as int),
        ),
        ok ==> strings_view(final(excludes)@) == exclude_step(
            strings_view(old(excludes)@),
            chars@.subrange(lo as int, hi as int),
        ),
{
    let ghost token = chars@.subrange(lo as int, hi as int);
    let (a, b) = trim_bounds(chars, lo, hi);
    if a == b {
        return true;
    }
    if chars[a] == '-' {
        let (c, d) = trim_bounds(chars, a + 1, b);
        assert(trim(token).drop_first() =~= chars@.subrange(a + 1, b as int));
        if c == d {
            return false;
        }
        let name = string_of(chars, c, d);
        let lowered = to_lowercase(name.as_str());
        proof {
            lemma_push_view(excludes@, lowered);
        }
        excludes.push(lowered);
        true
    } else {
        let word = string_of(chars, a, b);
        let lowered = to_lowercase(word.as_str());
        proof {
            lemma_push_view(includes@, lowered);
        }
        includes.push(lowered);
        true
    }
}

impl CategoryFilter {
    /// Parse a raw filter string (the value of `--category`).
    ///
    /// Returns `Ok(None)` when the value carries no categories (e.g. an
    /// empty string), `Err` when include and exclude values are mixed or
    /// a bare `-` appears with no category name.
    pub fn parse(raw: &str) -> (res: Result<Option<CategoryFilter>, String>)
        ensures
            parse_result_view(res) == parse_filter_spec(raw@),
    {
        let chars = to_chars(raw);
        let mut includes: Vec<String> = Vec::new();
        let mut excludes: Vec<String> = Vec::new();
        let ghost mut done: Seq<Seq<char>> = Seq::empty();
        let mut start: usize = 0;
        let mut i: usize = 0;
        assert(chars@.take(0) =~= Seq::<char>::empty());
        assert(split_on(chars@.take(0), ',') =~= done.push(chars@.subrange(0, 0)));
        while i < chars.len()
            invariant
                chars@ == raw@,
                start <= i <= chars.len(),
                split_on(chars@.take(i as int), ',') == done.push(
                    chars@.subrange(start as int, i as int),
                ),
                !has_bare_dash(done),
                strings_view(includes@) == included_names(done),
                strings_view(excludes@) == excluded_names(done),
            decreases chars.len() - i,
        {
            let ghost pre = chars@.take(i as int);
            assert(chars@.take(i + 1).drop_last() =~= pre);
            if chars[i] == ',' {
                if !absorb_token(&chars, start, i, &mut includes, &mut excludes) {
                    proof {
                        let t = chars@.subrange(start as int, i as int);
                        assert(done.push(t).drop_last() =~= done);
                        assert(chars@.take(i + 1).last() == ',');
                        assert(split_on(chars@.take(i + 1), ',') == done.push(t).push(
                            Seq::<char>::empty(),
                        ));
                        assert(is_bare_dash(t));
                        assert(has_bare_dash(done.push(t)));
                        lemma_bare_dash_persists(
                            done.push(t),
                            split_on(chars@, ','),
                            chars@,
                            i + 1,
                        );
                    }
                    let msg = "category exclusion is missing a name (got bare '-')".to_string();
                    assert(msg@ == bare_dash_message());
                    return Err(msg);
                }
                proof {
                    let t = chars@.subrange(start as int, i as int);
                    assert(done.push(t).drop_last() =~= done);
                    done = done.push(t);
                    assert(chars@.subrange(i + 1, i + 1) =~= Seq::<char>::empty());
                }
                start = i + 1;
            } else {
                proof {
                    assert(chars@.subrange(start as int, i + 1) =~= chars@.subrange(
                        start as int,
                        i as int,
                    ).push(chars@[i as int]));
                    assert(split_on(chars@.take(i + 1), ',') =~= done.push(
                        chars@.subrange(start as int, i + 1),
                    ));
                }
            }
            i += 1;
        }
        assert(chars@.take(chars.len() as int) =~= chars@);
        let ghost tokens = split_on(chars@, ',');
        if !absorb_token(&chars, start, chars.len(), &mut includes, &mut excludes) {
            assert(tokens.drop_last() =~= done);
            return Err("category exclusion is missing a name (got bare '-')".to_string());
        }
        assert(tokens.drop_last() =~= done);
        let no_includes = includes.len() == 0;
        let no_excludes = excludes.len() == 0;
        if no_includes && no_excludes {
            Ok(None)
        } else if no_excludes {
            Ok(Some(CategoryFilter::Include(includes)))
        } else if no_includes {
            Ok(Some(CategoryFilter::Exclude(excludes)))
        } else {
            Err("cannot mix included and excluded categories in the same filter".to_string())
        }
    }

    /// True if `app` passes this filter.
    pub fn matches(&self, app: &DesktopApp) -> (b: bool)
        ensures
            b == self@.admits(app@),
    {
        let wanted = match self {
            CategoryFilter::Include(cats) => cats,
            CategoryFilter::Exclude(cats) => cats,
        };
        let found = has_any_category(&app.categories, wanted);
        match self {
            CategoryFilter::Include(_) => found,
            CategoryFilter::Exclude(_) => !found,
        }
    }
}

/// A bare `-` among the first tokens of a split is a bare `-` of the whole
/// split.
proof fn lemma_bare_dash_persists(
    prefix_tokens: Seq<Seq<char>>,
    all_tokens: Seq<Seq<char>>,
    s: Seq<char>,
    k: int,
)
    requires
        0 < k <= s.len(),
        all_tokens == split_on(s, ','),
        split_on(s.take(k), ',') == prefix_tokens.push(Seq::<char>::empty()),
        has_bare_dash(prefix_tokens),
    ensures
        has_bare_dash(all_tokens),
{
    lemma_split_prefix_tokens(s, k);
    let n = prefix_tokens.len();
    lemma_has_bare_dash_index(prefix_tokens);
    let w = choose|w: int| 0 <= w < n && is_bare_dash(#[trigger] prefix_tokens[w]);
    assert(split_on(s.take(k), ',')[w] == prefix_tokens[w]);
    assert(all_tokens[w] == prefix_tokens[w]);
    lemma_index_bare_dash(all_tokens, w);
}

/// Splitting a longer string keeps all but the last piece of the split of
/// a prefix.
proof fn lemma_split_prefix_tokens(s: Seq<char>, k: int)
    requires
        0 <= k <= s.len(),
    ensures
        split_on(s.take(k), ',').len() <= split_on(s, ',').len(),
        forall|w: int|
            0 <= w < split_on(s.take(k), ',').len() - 1 ==> #[trigger] split_on(s, ',')[w]
                == split_on(s.take(k), ',')[w],
    decreases s.len() - k,
{
    if k < s.len() {
        lemma_split_prefix_tokens(s.drop_last(), k);
        assert(s.drop_last().take(k) =~= s.take(k));
        lemma_split_len_positive(s.drop_last());
    } else {
        assert(s.take(k) =~= s);
    }
}

proof fn lemma_split_len_positive(s: Seq<char>)
    ensures
        split_on(s, ',').len() > 0,
    decreases s.len(),
{
    if s.len() > 0 {
        lemma_split_len_positive(s.drop_last());
    }
}

proof fn lemma_has_bare_dash_index(tokens: Seq<Seq<char>>)
    ensures
        has_bare_dash(tokens) <==> exists|w: int| 0 <= w < tokens.len() && is_bare_dash(
            #[trigger] tokens[w],
        ),
    decreases tokens.len(),
{
    if tokens.len() > 0 {
        let p = tokens.drop_last();
        lemma_has_bare_dash_index(p);
        if has_bare_dash(p) {
            let w = choose|w: int| 0 <= w < p.len() && is_bare_dash(#[trigger] p[w]);
            assert(tokens[w] == p[w]);
        }
        if exists|w: int| 0 <= w < tokens.len() && is_bare_dash(#[trigger] tokens[w]) {
            let w = choose|w: int| 0 <= w < tokens.len() && is_bare_dash(#[trigger] tokens[w]);
            if w < tokens.len() - 1 {
                assert(p[w] == tokens[w]);
            }
        }
    }
}

proof fn lemma_index_bare_dash(tokens: Seq<Seq<char>>, w: int)
    requires
        0 <= w < tokens.len(),
        is_bare_dash(tokens[w]),
    ensures
        has_bare_dash(tokens),
{
    lemma_has_bare_dash_index(tokens);
}

/// Whether some of `categories`, lowercased, is one of `wanted`.
fn has_any_category(categories: &Vec<String>, wanted: &Vec<String>) -> (b: bool)
    ensures
        b == has_listed_category(strings_view(categories@), strings_view(wanted@)),
{
    let ghost cats = strings_view(categories@);
    let ghost ws = strings_view(wanted@);
    let mut i: usize = 0;
    while i < categories.len()
        invariant
            i <= categories.len(),
            cats == strings_view(categories@),
            ws == strings_view(wanted@),
            forall|a: int, j: int|
                0 <= a < i && 0 <= j < ws.len() ==> #[trigger] ws[j] != lowercase(
                    #[trigger] cats[a],
                ),
        decreases categories.len() - i,
    {
        let lowered = to_lowercase(categories[i].as_str());
        let mut j: usize = 0;
        while j < wanted.len()
            invariant
                i < categories.len(),
                j <= wanted.len(),
                cats == strings_view(categories@),
                ws == strings_view(wanted@),
                lowered@ == lowercase(cats[i as int]),
                forall|k: int| 0 <= k < j ==> #[trigger] ws[k] != lowered@,
            decreases wanted.len() - j,
        {
            if wanted[j] == lowered {
                assert(ws[j as int] == lowercase(cats[i as int]));
                return true;
            }
            j += 1;
        }
        i += 1;
    }
    false
}

/// Apply an optional filter to a list of apps. `None` keeps everything.
pub fn apply(apps: Vec<DesktopApp>, filter: Option<&CategoryFilter>) -> (out: Vec<DesktopApp>)
    ensures
        match filter {
            None => out@ == apps@,
            Some(f) => out@ == apps@.filter(|a: DesktopApp| f@.admits(a@)),
        },
{
    match filter {
        None => apps,
        Some(f) => {
            let ghost pred = |a: DesktopApp| f@.admits(a@);
            let ghost all = apps@;
            let mut out: Vec<DesktopApp> = Vec::new();
            for app in it: apps
                invariant
                    all == it.seq(),
                    pred == (|a: DesktopApp| f@.admits(a@)),
                    out@ == it.seq().take(it.index() as int).filter(pred),
            {
                let ghost k = it.index();
                proof {
                    assert(app == it.seq()[k as int]);
                    assert(it.seq().take(k + 1) =~= it.seq().take(k as int).push(app));
                    it.seq().take(k as int).lemma_filter_push(app, pred);
                }
                let keep = f.matches(&app);
                if keep {
                    out.push(app);
                }
            }
            assert(all.take(all.len() as int) =~= all);
            out
        },
    }
}

/// An exclusion filter admits exactly the apps that the inclusion filter
/// with the same categories rejects.
pub proof fn law_exclude_is_complement_of_include(cats: Seq<Seq<char>>, app: DesktopAppView)
    ensures
        CategoryFilterView::Exclude(cats).admits(app) == !CategoryFilterView::Include(cats).admits(
            app,
        ),
{
}

/// Matching sees an app's categories only through their lowercase forms:
/// two apps whose categories lowercase alike pass the same filters.
pub proof fn law_matching_ignores_case(
    filter: CategoryFilterView,
    app1: DesktopAppView,
    app2: DesktopAppView,
)
    requires
        app1.categories.len() == app2.categories.len(),
        forall|i: int|
            0 <= i < app1.categories.len() ==> lowercase(#[trigger] app1.categories[i])
                == lowercase(app2.categories[i]),
    ensures
        filter.admits(app1) == filter.admits(app2),
{
    let wanted = match filter {
        CategoryFilterView::Include(c) => c,
        CategoryFilterView::Exclude(c) => c,
    };
    if has_listed_category(app1.categories, wanted) {
        let (i, j) = choose|i: int, j: int|
            0 <= i < app1.categories.len() && 0 <= j < wanted.len() && #[trigger] wanted[j]
                == lowercase(#[trigger] app1.categories[i]);
        assert(wanted[j] == lowercase(app2.categories[i]));
    }
    if has_listed_category(app2.categories, wanted) {
        let (i, j) = choose|i: int, j: int|
            0 <= i < app2.categories.len() && 0 <= j < wanted.len() && #[trigger] wanted[j]
                == lowercase(#[trigger] app2.categories[i]);
        assert(wanted[j] == lowercase(app1.categories[i]));
    }
}

/// A parsed filter is never empty, and holds only lowercased names:
/// includes and excludes are never mixed in one filter.
pub proof fn law_parsed_filter_is_nonempty_and_lowercased(raw: Seq<char>)
    ensures
        parse_filter_spec(raw) matches Ok(Some(f)) ==> match f {
            CategoryFilterView::Include(c) => c.len() > 0 && c == included_names(split_on(raw, ','))
                && excluded_names(split_on(raw, ',')).len() == 0,
            CategoryFilterView::Exclude(c) => c.len() > 0 && c == excluded_names(split_on(raw, ','))
                && included_names(split_on(raw, ',')).len() == 0,
        },
        forall|k: int|
            0 <= k < included_names(split_on(raw, ',')).len() ==> exists|t: Seq<char>|
                #[trigger] included_names(split_on(raw, ','))[k] == lowercase(t),
        forall|k: int|
            0 <= k < excluded_names(split_on(raw, ',')).len() ==> exists|t: Seq<char>|
                #[trigger] excluded_names(split_on(raw, ','))[k] == lowercase(t),
{
    lemma_names_are_lowercase(split_on(raw, ','));
}

proof fn lemma_names_are_lowercase(tokens: Seq<Seq<char>>)
    ensures
        forall|k: int|
            0 <= k < included_names(tokens).len() ==> exists|t: Seq<char>|
                #[trigger] included_names(tokens)[k] == lowercase(t),
        forall|k: int|
            0 <= k < excluded_names(tokens).len() ==> exists|t: Seq<char>|
                #[trigger] excluded_names(tokens)[k] == lowercase(t),
    decreases tokens.len(),
{
    if tokens.len() > 0 {
        let p = tokens.drop_last();
        lemma_names_are_lowercase(p);
        let t = tokens.last();
        assert forall|k: int| 0 <= k < included_names(tokens).len() implies exists|u: Seq<char>|
            #[trigger] included_names(tokens)[k] == lowercase(u) by {
            if k < included_names(p).len() {
                assert(included_names(tokens)[k] == included_names(p)[k]);
            } else {
                assert(included_names(tokens)[k] == lowercase(trim(t)));
            }
        }
        assert forall|k: int| 0 <= k < excluded_names(tokens).len() implies exists|u: Seq<char>|
            #[trigger] excluded_names(tokens)[k] == lowercase(u) by {
            if k < excluded_names(p).len() {
                assert(excluded_names(tokens)[k] == excluded_names(p)[k]);
            } else {
                assert(excluded_names(tokens)[k] == lowercase(exclusion_name(t)));
            }
        }
    }
}

proof fn lemma_filter_idempotent(s: Seq<DesktopApp>, p: spec_fn(DesktopApp) -> bool)
    ensures
        s.filter(p).filter(p) == s.filter(p),
    decreases s.len(),
{
    reveal(Seq::filter);
    if s.len() > 0 {
        lemma_filter_idempotent(s.drop_last(), p);
        let f = s.drop_last().filter(p);
        if p(s.last()) {
            f.lemma_filter_push(s.last(), p);
        }
    }
}

proof fn lemma_filter_commutes(
    s: Seq<DesktopApp>,
    p: spec_fn(DesktopApp) -> bool,
    q: spec_fn(DesktopApp) -> bool,
)
    ensures
        s.filter(p).filter(q) == s.filter(q).filter(p),
    decreases s.len(),
{
    reveal(Seq::filter);
    if s.len() > 0 {
        let t = s.drop_last();
        let x = s.last();
        lemma_filter_commutes(t, p, q);
        t.filter(p).lemma_filter_push(x, q);
        t.filter(q).lemma_filter_push(x, p);
    }
}

/// Applying a filter twice keeps what applying it once keeps.
pub proof fn law_filter_is_idempotent(apps: Seq<DesktopApp>, f: CategoryFilterView)
    ensures
        apps.filter(|a: DesktopApp| f.admits(a@)).filter(|a: DesktopApp| f.admits(a@))
            == apps.filter(|a: DesktopApp| f.admits(a@)),
{
    lemma_filter_idempotent(apps, |a: DesktopApp| f.admits(a@));
}

/// Two filters applied one after the other keep the same apps in either
/// order.
pub proof fn law_filters_commute(apps: Seq<DesktopApp>, f: CategoryFilterView, g: CategoryFilterView)
    ensures
        apps.filter(|a: DesktopApp| f.admits(a@)).filter(|a: DesktopApp| g.admits(a@))
            == apps.filter(|a: DesktopApp| g.admits(a@)).filter(|a: DesktopApp| f.admits(a@)),
{
    lemma_filter_commutes(apps, |a: DesktopApp| f.admits(a@), |a: DesktopApp| g.admits(a@));
}

} // verus!
