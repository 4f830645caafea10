//! Dedupe and disambiguate a list of `DesktopApp`s.
//!
//! Two entries with the same `Name` and `Exec` are treated as one record;
//! User-scoped entries win over System-scoped ones.
//!
//! Two entries with the same `Name` but different `Exec` are both kept,
//! and their display names get a disambiguation suffix of
//! "<basename> <args>" so the user can tell them apart.
use vstd::prelude::*;

use crate::desktop_entry::{apps_view, same_launch_spec, DesktopApp, DesktopAppView};
use crate::exec_cleanup::{exec_display, exec_label};

verus! {

/// The position of the first app in `acc` that launches the same thing as
/// `a`, if any.
pub open spec fn launch_index(acc: Seq<DesktopAppView>, a: DesktopAppView) -> Option<int>
    decreases acc.len(),
{
    if acc.len() == 0 {
        None
    } else {
        match launch_index(acc.drop_last(), a) {
            Some(i) => Some(i),
            None => if same_launch_spec(acc.last(), a) {
                Some(acc.len() - 1)
            } else {
                None
            },
        }
    }
}

/// `acc` after one more app: a new launch is appended; a launch already in
/// `acc` is replaced only by an app of strictly higher scope.
pub open spec fn merge_step(acc: Seq<DesktopAppView>, a: DesktopAppView) -> Seq<DesktopAppView> {
    match launch_index(acc, a) {
        Some(i) => if a.scope.rank() > acc[i].scope.rank() {
            acc.update(i, a)
        } else {
            acc
        },
        None => acc.push(a),
    }
}

/// One record per launch (name and exec), in the order in which the
/// launches first appear; each is the first app of the highest scope among
/// those with that launch.
pub open spec fn merge_launches(apps: Seq<DesktopAppView>) -> Seq<DesktopAppView>
    decreases apps.len(),
{
    if apps.len() == 0 {
        Seq::<DesktopAppView>::empty()
    } else {
        merge_step(merge_launches(apps.drop_last()), apps.last())
    }
}

/// How many apps carry the display name `name`.
pub open spec fn name_count(apps: Seq<DesktopAppView>, name: Seq<char>) -> nat
    decreases apps.len(),
{
    if apps.len() == 0 {
        0
    } else {
        name_count(apps.drop_last(), name) + if apps.last().name == name {
            1nat
        } else {
            0nat
        }
    }
}

/// The app with "<name> (<basename> <args>)" as its display name.
pub open spec fn with_suffix(a: DesktopAppView) -> DesktopAppView {
    DesktopAppView {
        appid: a.appid,
        name: a.name + " ("@ + exec_label(a.exec_line) + ")"@,
        icon: a.icon,
        exec_line: a.exec_line,
        scope: a.scope,
        categories: a.categories,
    }
}

/// Every app whose display name is shared with another app gets the
/// suffix; the others are unchanged.
pub open spec fn disambiguate_names(apps: Seq<DesktopAppView>) -> Seq<DesktopAppView> {
    apps.map_values(
        |a: DesktopAppView|
            if name_count(apps, a.name) > 1 {
                with_suffix(a)
            } else {
                a
            },
    )
}

proof fn lemma_apps_view_push(v: Seq<DesktopApp>, a: DesktopApp)
    ensures
        apps_view(v.push(a)) == apps_view(v).push(a@),
{
    assert(apps_view(v.push(a)) =~= apps_view(v).push(a@));
}

/// `launch_index` is the first position with the same launch.
pub proof fn lemma_launch_index(acc: Seq<DesktopAppView>, a: DesktopAppView)
    ensures
        match launch_index(acc, a) {
            Some(i) => 0 <= i < acc.len() && same_launch_spec(acc[i], a) && forall|m: int|
                0 <= m < i ==> !same_launch_spec(#[trigger] acc[m], a),
            None => forall|m: int| 0 <= m < acc.len() ==> !same_launch_spec(#[trigger] acc[m], a),
        },
    decreases acc.len(),
{
    if acc.len() > 0 {
        let p = acc.drop_last();
        lemma_launch_index(p, a);
        assert forall|m: int| 0 <= m < p.len() implies #[trigger] acc[m] == p[m] by {}
    }
}

/// Position of the first app of `acc` with the same launch as `a`.
fn find_launch(acc: &Vec<DesktopApp>, a: &DesktopApp) -> (r: Option<usize>)
    ensures
        match r {
            Some(i) => i < acc@.len() && launch_index(apps_view(acc@), a@) == Some(i as int),
            None => launch_index(apps_view(acc@), a@) is None,
        },
{
    let mut j: usize = 0;
    while j < acc.len()
        invariant
            j <= acc.len(),
            forall|m: int| 0 <= m < j ==> !same_launch_spec(#[trigger] apps_view(acc@)[m], a@),
        decreases acc.len() - j,
    {
        if acc[j].same_launch(a) {
            proof {
                let v = apps_view(acc@);
                lemma_launch_index(v, a@);
                assert(v[j as int] == acc@[j as int]@);
                match launch_index(v, a@) {
                    Some(i) => {
                        if i > j {
                            assert(!same_launch_spec(v[j as int], a@));
                        }
                    },
                    None => {
                        assert(!same_launch_spec(v[j as int], a@));
                    },
                }
            }
            return Some(j);
        }
        assert(apps_view(acc@)[j as int] == acc@[j as int]@);
        j += 1;
    }
    proof {
        let v = apps_view(acc@);
        lemma_launch_index(v, a@);
        if let Some(i) = launch_index(v, a@) {
            assert(!same_launch_spec(v[i], a@));
        }
    }
    None
}

/// Collapse entries with the same (name, exec) into a single entry,
/// preferring User scope over System scope when both exist.
fn merge_identical_launches(apps: Vec<DesktopApp>) -> (out: Vec<DesktopApp>)
    ensures
        apps_view(out@) == merge_launches(apps_view(apps@)),
{
    let ghost all = apps@;
    let mut out: Vec<DesktopApp> = Vec::new();
    assert(all.take(0) =~= Seq::<DesktopApp>::empty());
    assert(apps_view(out@) =~= Seq::<DesktopAppView>::empty());
    for app in it: apps
        invariant
            all == it.seq(),
            apps_view(out@) == merge_launches(apps_view(it.seq().take(it.index() as int))),
    {
        let ghost k = it.index();
        let ghost pre = apps_view(out@);
        proof {
            assert(app == all[k as int]);
            assert(all.take(k + 1) =~= all.take(k as int).push(app));
            lemma_apps_view_push(all.take(k as int), app);
            assert(apps_view(all.take(k + 1)).drop_last() =~= apps_view(all.take(k as int)));
            assert(apps_view(all.take(k + 1)).last() == app@);
        }
        match find_launch(&out, &app) {
            Some(i) => {
                if app.scope.outranks(&out[i].scope) {
                    out.set(i, app);
                    assert(apps_view(out@) =~= pre.update(i as int, app@));
                }
            },
            None => {
                proof {
                    lemma_apps_view_push(out@, app);
                }
                out.push(app);
            },
        }
    }
    assert(all.take(all.len() as int) =~= all);
    out
}

/// How many apps of `apps` carry the name of `apps[i]`.
fn count_name(apps: &Vec<DesktopApp>, i: usize) -> (c: usize)
    requires
        i < apps.len(),
    ensures
        c == name_count(apps_view(apps@), apps@[i as int].name@),
{
    let ghost v = apps_view(apps@);
    let mut c: usize = 0;
    let mut j: usize = 0;
    while j < apps.len()
        invariant
            i < apps.len(),
            j <= apps.len(),
            v == apps_view(apps@),
            c <= j,
            c == name_count(v.take(j as int), apps@[i as int].name@),
        decreases apps.len() - j,
    {
        proof {
            assert(v.take(j + 1).drop_last() =~= v.take(j as int));
            assert(v.take(j + 1).last() == apps@[j as int]@);
        }
        if apps[j].name == apps[i].name {
            c += 1;
        }
        j += 1;
    }
    assert(v.take(apps.len() as int) =~= v);
    c
}

/// Any remaining entries that share a display `Name` must have different
/// `Exec` lines (merging saw to that). Rewrite their `name` to
/// "<name> (<exec basename + args>)" so the user can distinguish
/// them in the launcher.
fn disambiguate_duplicate_names(apps: Vec<DesktopApp>) -> (out: Vec<DesktopApp>)
    ensures
        apps_view(out@) == disambiguate_names(apps_view(apps@)),
{
    let ghost all = apps@;
    let ghost v = apps_view(apps@);
    let mut shared: Vec<bool> = Vec::new();
    let mut i: usize = 0;
    while i < apps.len()
        invariant
            i <= apps.len(),
            apps@ == all,
            v == apps_view(all),
            shared@.len() == i,
            forall|m: int| 0 <= m < i ==> #[trigger] shared@[m] == (name_count(v, v[m].name) > 1),
        decreases apps.len() - i,
    {
        let c = count_name(&apps, i);
        shared.push(c > 1);
        i += 1;
    }
    let mut out: Vec<DesktopApp> = Vec::new();
    let mut k: usize = 0;
    for app in it: apps
        invariant
            all == it.seq(),
            v == apps_view(all),
            k == it.index(),
            k <= all.len(),
            shared@.len() == all.len(),
            forall|m: int| 0 <= m < all.len() ==> #[trigger] shared@[m] == (name_count(v, v[m].name) > 1),
            apps_view(out@) == disambiguate_names(v).take(k as int),
    {
        proof {
            assert(app == all[k as int]);
            assert(v[k as int] == app@);
        }
        let shared_name = shared[k];
        assert(k < shared.len());
        let next = if shared_name {
            let suffix = exec_display(app.exec_line.as_str());
            let DesktopApp { appid, name, icon, exec_line, scope, categories } = app;
            let mut new_name = name;
            new_name.append(" (");
            new_name.append(suffix.as_str());
            new_name.append(")");
            DesktopApp { appid, name: new_name, icon, exec_line, scope, categories }
        } else {
            app
        };
        proof {
            lemma_apps_view_push(out@, next);
            assert(disambiguate_names(v).take(k + 1) =~= disambiguate_names(v).take(k as int).push(
                next@,
            ));
        }
        out.push(next);
        k += 1;
    }
    assert(disambiguate_names(v).take(all.len() as int) =~= disambiguate_names(v));
    out
}

/// Merge entries that launch the same thing, then add a suffix to the
/// display names that are still shared.
pub fn dedupe_and_disambiguate(apps: Vec<DesktopApp>) -> (out: Vec<DesktopApp>)
    ensures
        apps_view(out@) == disambiguate_names(merge_launches(apps_view(apps@))),
{
    let merged = merge_identical_launches(apps);
    disambiguate_duplicate_names(merged)
}


/// No two apps of `m` launch the same thing.
pub open spec fn launches_distinct(m: Seq<DesktopAppView>) -> bool {
    forall|i: int, j: int|
        0 <= i < j < m.len() ==> !same_launch_spec(#[trigger] m[i], #[trigger] m[j])
}

/// Every app of `apps` has its launch in `m`.
pub open spec fn covers(apps: Seq<DesktopAppView>, m: Seq<DesktopAppView>) -> bool {
    forall|q: int|
        0 <= q < apps.len() ==> exists|j: int|
            0 <= j < m.len() && same_launch_spec(#[trigger] apps[q], #[trigger] m[j])
}

/// `apps[w]` has the highest scope among the apps with its launch, and is
/// the first of those with that scope.
pub open spec fn is_winner(apps: Seq<DesktopAppView>, w: int) -> bool {
    &&& 0 <= w < apps.len()
    &&& forall|q: int|
        0 <= q < apps.len() && same_launch_spec(#[trigger] apps[q], apps[w]) ==> {
            &&& apps[q].scope.rank() <= apps[w].scope.rank()
            &&& (q < w ==> apps[q].scope.rank() < apps[w].scope.rank())
        }
}

/// Every app of `m` is a winner of its launch among `apps`.
pub open spec fn all_winners(apps: Seq<DesktopAppView>, m: Seq<DesktopAppView>) -> bool {
    forall|j: int| 0 <= j < m.len() ==> #[trigger] winner_of(apps, m[j])
}

/// Some app of `apps` equal to `x` is a winner of its launch.
pub open spec fn winner_of(apps: Seq<DesktopAppView>, x: DesktopAppView) -> bool {
    exists|w: int| is_winner(apps, w) && #[trigger] apps[w] == x
}

/// Some app before position `q` has the launch of `x`.
pub open spec fn seen_before(apps: Seq<DesktopAppView>, x: DesktopAppView, q: int) -> bool {
    exists|p: int| 0 <= p < q && same_launch_spec(#[trigger] apps[p], x)
}

/// The launches of `m` come in the order of their first appearance in
/// `apps`.
pub open spec fn in_first_seen_order(apps: Seq<DesktopAppView>, m: Seq<DesktopAppView>) -> bool {
    forall|i: int, j: int, q: int|
        #![trigger m[i], m[j], apps[q]]
        0 <= i < j < m.len() && 0 <= q < apps.len() && same_launch_spec(apps[q], m[j])
            ==> seen_before(apps, m[i], q)
}

proof fn lemma_merge_props(apps: Seq<DesktopAppView>)
    ensures
        launches_distinct(merge_launches(apps)),
        covers(apps, merge_launches(apps)),
        all_winners(apps, merge_launches(apps)),
        in_first_seen_order(apps, merge_launches(apps)),
    decreases apps.len(),
{
    let m = merge_launches(apps);
    if apps.len() == 0 {
        return;
    }
    let n = apps.len();
    let prev = apps.drop_last();
    let mp = merge_launches(prev);
    let a = apps.last();
    lemma_merge_props(prev);
    lemma_launch_index(mp, a);
    assert forall|q: int| 0 <= q < n - 1 implies #[trigger] apps[q] == prev[q] by {}
    // Each old position keeps its launch.
    assert(m.len() >= mp.len());
    assert forall|j: int| 0 <= j < mp.len() implies same_launch_spec(#[trigger] m[j], mp[j]) by {}
    // Winners among the shorter list stay winners when `a` does not beat them.
    assert forall|w: int|
        is_winner(prev, w) && (!same_launch_spec(a, prev[w]) || a.scope.rank()
            <= prev[w].scope.rank()) implies is_winner(apps, w) by {
        assert forall|q: int|
            0 <= q < apps.len() && same_launch_spec(#[trigger] apps[q], apps[w]) implies {
            &&& apps[q].scope.rank() <= apps[w].scope.rank()
            &&& (q < w ==> apps[q].scope.rank() < apps[w].scope.rank())
        } by {
            if q < n - 1 {
                assert(apps[q] == prev[q]);
            }
        }
    }
    // distinct
    assert forall|i: int, j: int| 0 <= i < j < m.len() implies !same_launch_spec(
        #[trigger] m[i],
        #[trigger] m[j],
    ) by {
        if j < mp.len() {
            assert(same_launch_spec(m[i], mp[i]));
            assert(same_launch_spec(m[j], mp[j]));
            assert(!same_launch_spec(mp[i], mp[j]));
        } else {
            assert(m[j] == a);
            assert(same_launch_spec(m[i], mp[i]));
        }
    }
    // covers
    assert forall|q: int| 0 <= q < apps.len() implies exists|j: int|
        0 <= j < m.len() && same_launch_spec(#[trigger] apps[q], #[trigger] m[j]) by {
        if q < n - 1 {
            assert(apps[q] == prev[q]);
            let j = choose|j: int| 0 <= j < mp.len() && same_launch_spec(prev[q], #[trigger] mp[j]);
            assert(same_launch_spec(m[j], mp[j]));
            assert(same_launch_spec(apps[q], m[j]));
        } else {
            match launch_index(mp, a) {
                Some(i) => {
                    assert(same_launch_spec(m[i], mp[i]));
                    assert(same_launch_spec(apps[q], m[i]));
                },
                None => {
                    assert(m[mp.len() as int] == a);
                    assert(same_launch_spec(apps[q], m[mp.len() as int]));
                },
            }
        }
    }
    // winners
    assert forall|j: int| 0 <= j < m.len() implies #[trigger] winner_of(apps, m[j]) by {
        let last_is_winner = m[j] == a && (j >= mp.len() || a.scope.rank() > mp[j].scope.rank());
        if last_is_winner {
            assert forall|q: int|
                0 <= q < apps.len() && same_launch_spec(#[trigger] apps[q], apps[n - 1]) implies {
                &&& apps[q].scope.rank() <= apps[n - 1].scope.rank()
                &&& (q < n - 1 ==> apps[q].scope.rank() < apps[n - 1].scope.rank())
            } by {
                if q < n - 1 {
                    assert(apps[q] == prev[q]);
                    let jj = choose|jj: int|
                        0 <= jj < mp.len() && same_launch_spec(prev[q], #[trigger] mp[jj]);
                    if j < mp.len() {
                        assert(same_launch_spec(mp[j], a));
                        if jj != j {
                            if jj < j {
                                assert(!same_launch_spec(mp[jj], mp[j]));
                            } else {
                                assert(!same_launch_spec(mp[j], mp[jj]));
                            }
                        }
                        assert(winner_of(prev, mp[j]));
                        let w = choose|w: int| is_winner(prev, w) && #[trigger] prev[w] == mp[j];
                        assert(same_launch_spec(prev[q], prev[w]));
                    } else {
                        assert(launch_index(mp, a) is None);
                        assert(!same_launch_spec(mp[jj], a));
                    }
                }
            }
            assert(is_winner(apps, n - 1));
            assert(apps[n - 1] == m[j]);
        } else {
            assert(j < mp.len());
            assert(m[j] == mp[j]);
            assert(winner_of(prev, mp[j]));
            let w = choose|w: int| is_winner(prev, w) && #[trigger] prev[w] == mp[j];
            if same_launch_spec(a, prev[w]) {
                match launch_index(mp, a) {
                    Some(i) => {
                        if i != j {
                            if i < j {
                                assert(!same_launch_spec(mp[i], mp[j]));
                            } else {
                                assert(!same_launch_spec(mp[j], mp[i]));
                            }
                        }
                    },
                    None => {
                        assert(!same_launch_spec(mp[j], a));
                    },
                }
            }
            assert(is_winner(apps, w));
            assert(apps[w] == prev[w]);
        }
    }
    // order
    assert forall|i: int, j: int, q: int|
        #![trigger m[i], m[j], apps[q]]
        0 <= i < j < m.len() && 0 <= q < apps.len() && same_launch_spec(apps[q], m[j])
            implies seen_before(apps, m[i], q) by {
        assert(same_launch_spec(m[i], mp[i]));
        assert(winner_of(prev, mp[i]));
        let w = choose|w: int| is_winner(prev, w) && #[trigger] prev[w] == mp[i];
        assert(apps[w] == prev[w]);
        if q < n - 1 {
            assert(apps[q] == prev[q]);
            if j < mp.len() {
                assert(same_launch_spec(m[j], mp[j]));
                assert(same_launch_spec(prev[q], mp[j]));
                assert(seen_before(prev, mp[i], q));
                let p = choose|p: int| 0 <= p < q && same_launch_spec(#[trigger] prev[p], mp[i]);
                assert(apps[p] == prev[p]);
            } else {
                assert(m[j] == a);
                let jj = choose|jj: int|
                    0 <= jj < mp.len() && same_launch_spec(prev[q], #[trigger] mp[jj]);
                assert(!same_launch_spec(mp[jj], a));
            }
        } else {
            assert(same_launch_spec(apps[w], m[i]));
        }
    }
}

/// Merging leaves no two records that launch the same thing.
pub proof fn law_merge_leaves_distinct_launches(apps: Seq<DesktopAppView>)
    ensures
        launches_distinct(merge_launches(apps)),
{
    lemma_merge_props(apps);
}

/// Merging drops no launch: every input app has its launch among the
/// merged records.
pub proof fn law_merge_keeps_every_launch(apps: Seq<DesktopAppView>)
    ensures
        covers(apps, merge_launches(apps)),
{
    lemma_merge_props(apps);
}

/// Each merged record is one of the input apps with its launch, of the
/// highest scope among them (User wins over System), and the first one of
/// that scope (a tie keeps the first seen).
pub proof fn law_merge_keeps_highest_scope_first_seen(apps: Seq<DesktopAppView>)
    ensures
        all_winners(apps, merge_launches(apps)),
{
    lemma_merge_props(apps);
}

/// Merging keeps the order in which launches first appear in the input.
pub proof fn law_merge_preserves_first_seen_order(apps: Seq<DesktopAppView>)
    ensures
        in_first_seen_order(apps, merge_launches(apps)),
{
    lemma_merge_props(apps);
}

/// Merged records that share a display name differ in their `Exec=` line:
/// they are the ones the suffix tells apart.
pub proof fn law_shared_names_have_distinct_execs(apps: Seq<DesktopAppView>)
    ensures
        forall|i: int, j: int|
            0 <= i < j < merge_launches(apps).len() && #[trigger] merge_launches(apps)[i].name
                == #[trigger] merge_launches(apps)[j].name ==> merge_launches(apps)[i].exec_line
                != merge_launches(apps)[j].exec_line,
{
    lemma_merge_props(apps);
}

/// Disambiguation only renames: it keeps the number and order of the
/// records and every field but the name, and changes the name exactly of
/// the records whose name another record shares.
pub proof fn law_disambiguation_only_renames(apps: Seq<DesktopAppView>)
    ensures
        disambiguate_names(apps).len() == apps.len(),
        forall|k: int|
            0 <= k < apps.len() ==> {
                let out = #[trigger] disambiguate_names(apps)[k];
                &&& out.appid == apps[k].appid
                &&& out.icon == apps[k].icon
                &&& out.exec_line == apps[k].exec_line
                &&& out.scope == apps[k].scope
                &&& out.categories == apps[k].categories
                &&& (name_count(apps, apps[k].name) > 1 ==> out.name == apps[k].name + " ("@
                    + exec_label(apps[k].exec_line) + ")"@)
                &&& (name_count(apps, apps[k].name) <= 1 ==> out.name == apps[k].name)
            },
{
}

} // verus!
