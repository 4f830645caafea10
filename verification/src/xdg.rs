//! Turn the fields of parsed `.desktop` entries into `DesktopApp` records:
//! filter out entries that shouldn't be shown, strip the field codes of
//! `Exec=`, take the resolved icon path, and classify the directory an
//! entry came from into a scope. Reading the files, resolving icons in the
//! icon themes and classifying paths against the user's XDG directories
//! happen where the entries are read.
use vstd::prelude::*;

use crate::desktop_entry::{opt_view, strings_view, DesktopApp, DesktopAppView, Scope};
use crate::exec_cleanup::{strip_field_codes, stripped_exec};
use crate::field_code_regex::{field_code_pattern, regex_compiles};
use crate::text::{chars_eq, to_chars};

verus! {

/// What the loader reads of one parsed `.desktop` entry.
pub struct EntryFields {
    /// Filename stem of the entry.
    pub appid: String,
    /// Kind of directory the `.desktop` file lives in.
    pub origin: PathOrigin,
    /// `NoDisplay=true`.
    pub no_display: bool,
    /// `Hidden=true`.
    pub hidden: bool,
    /// `Type=`.
    pub entry_type: Option<String>,
    /// `Name=`, in the best matching locale.
    pub name: Option<String>,
    /// `Exec=`, as written.
    pub exec_line: Option<String>,
    /// `Icon=`.
    pub icon: Option<String>,
    /// Absolute path that the icon themes give for `Icon=`, if any.
    pub resolved_icon: Option<String>,
    /// `Categories=`, split on `;`.
    pub categories: Vec<String>,
}

/// The mathematical content of an [`EntryFields`].
pub struct EntryView {
    pub appid: Seq<char>,
    pub origin: PathOrigin,
    pub no_display: bool,
    pub hidden: bool,
    pub entry_type: Option<Seq<char>>,
    pub name: Option<Seq<char>>,
    pub exec_line: Option<Seq<char>>,
    pub icon: Option<Seq<char>>,
    pub resolved_icon: Option<Seq<char>>,
    pub categories: Seq<Seq<char>>,
}

impl View for EntryFields {
    type V = EntryView;

    open spec fn view(&self) -> EntryView {
        EntryView {
            appid: self.appid@,
            origin: self.origin,
            no_display: self.no_display,
            hidden: self.hidden,
            entry_type: opt_view(self.entry_type),
            name: opt_view(self.name),
            exec_line: opt_view(self.exec_line),
            icon: opt_view(self.icon),
            resolved_icon: opt_view(self.resolved_icon),
            categories: strings_view(self.categories@),
        }
    }
}

/// Where a `.desktop` file lives, as `freedesktop_desktop_entry::PathSource`
/// tells the kinds of directory apart.
pub enum PathOrigin {
    Local,
    LocalDesktop,
    LocalFlatpak,
    LocalNix,
    Nix,
    System,
    SystemLocal,
    SystemFlatpak,
    SystemSnap,
    Other(String),
}

/// The scope of a directory kind: the user's own directories, flatpak and
/// nix ones included, are `User`; all others are `System`.
pub open spec fn scope_of_origin(origin: PathOrigin) -> Scope {
    match origin {
        PathOrigin::Local | PathOrigin::LocalFlatpak | PathOrigin::LocalNix => Scope::User,
        _ => Scope::System,
    }
}

/// Only the user's own directories (local, local flatpak and local nix)
/// give `User` scope; every other kind of directory, `/usr/local/share`
/// and the system-wide flatpak, snap and nix ones included, gives `System`.
pub proof fn law_only_user_directories_give_user_scope(origin: PathOrigin)
    ensures
        (scope_of_origin(origin) == Scope::User) <==> (origin is Local || origin is LocalFlatpak
            || origin is LocalNix),
        (scope_of_origin(origin) == Scope::System) <==> !(origin is Local || origin is LocalFlatpak
            || origin is LocalNix),
{
}

/// An app made from an entry has `User` scope exactly when the entry lives
/// in one of the user's own directories.
pub proof fn law_app_scope_follows_entry_directory(a: DesktopAppView, e: EntryView)
    requires
        made_from(a, e),
    ensures
        (a.scope == Scope::User) <==> (e.origin is Local || e.origin is LocalFlatpak
            || e.origin is LocalNix),
{
}

/// The scope of a directory kind.
pub fn classify_scope(origin: &PathOrigin) -> (s: Scope)
    ensures
        s == scope_of_origin(*origin),
{
    match origin {
        PathOrigin::Local | PathOrigin::LocalFlatpak | PathOrigin::LocalNix => Scope::User,
        _ => Scope::System,
    }
}

/// Whether an entry becomes an app: shown, of type `Application`, named,
/// and with an `Exec=` line that is not empty once its field codes are
/// stripped.
pub open spec fn accepts(e: EntryView) -> bool {
    &&& !e.no_display
    &&& !e.hidden
    &&& e.entry_type == Some("Application"@)
    &&& e.name is Some
    &&& e.exec_line is Some
    &&& regex_compiles(field_code_pattern())
    &&& stripped_exec(e.exec_line->0).len() > 0
}

/// What an app made from an entry holds: the entry's id, name and
/// categories, its stripped `Exec=` line, the resolved icon path where the
/// entry names an icon (none otherwise), and the scope of its directory.
pub open spec fn made_from(a: DesktopAppView, e: EntryView) -> bool {
    &&& a.appid == e.appid
    &&& a.name == e.name->0
    &&& a.exec_line == stripped_exec(e.exec_line->0)
    &&& a.categories == e.categories
    &&& a.icon == (if e.icon is Some {
        e.resolved_icon
    } else {
        None
    })
    &&& a.scope == scope_of_origin(e.origin)
}

/// The app record of an entry, or `None` where the entry is not an app to
/// show.
pub fn to_desktop_app(entry: &EntryFields) -> (r: Option<DesktopApp>)
    ensures
        r is Some <==> accepts(entry@),
        r matches Some(a) ==> made_from(a@, entry@),
{
    if entry.no_display || entry.hidden {
        return None;
    }
    let application = to_chars("Application");
    match &entry.entry_type {
        Some(t) => {
            let kind = to_chars(t.as_str());
            if !chars_eq(&kind, &application) {
                return None;
            }
        },
        None => {
            return None;
        },
    }
    let name = match &entry.name {
        Some(n) => n.clone(),
        None => {
            return None;
        },
    };
    let exec_raw = match &entry.exec_line {
        Some(e) => e,
        None => {
            return None;
        },
    };
    let exec = match strip_field_codes(exec_raw.as_str()) {
        Some(e) => e,
        None => {
            return None;
        },
    };
    if exec.as_str().unicode_len() == 0 {
        return None;
    }
    let icon = match (&entry.icon, &entry.resolved_icon) {
        (Some(_), Some(p)) => Some(p.clone()),
        _ => None,
    };
    let mut categories: Vec<String> = Vec::new();
    let mut i: usize = 0;
    while i < entry.categories.len()
        invariant
            i <= entry.categories.len(),
            strings_view(categories@) == strings_view(entry.categories@).take(i as int),
        decreases entry.categories.len() - i,
    {
        let c = entry.categories[i].clone();
        assert(strings_view(categories@.push(c)) =~= strings_view(categories@).push(c@));
        categories.push(c);
        assert(strings_view(categories@) =~= strings_view(entry.categories@).take(i + 1));
        i += 1;
    }
    assert(strings_view(entry.categories@).take(i as int) =~= strings_view(entry.categories@));
    Some(
        DesktopApp {
            appid: entry.appid.clone(),
            name,
            icon,
            exec_line: exec,
            scope: classify_scope(&entry.origin),
            categories,
        },
    )
}

/// The views of a list of entries.
pub open spec fn entries_view(entries: Seq<EntryFields>) -> Seq<EntryView> {
    entries.map_values(|e: EntryFields| e@)
}

/// Turn parsed entries into apps: the entries that [`accepts`] admits, in
/// order, each made into its app record.
pub fn entries_to_apps(entries: Vec<EntryFields>) -> (out: Vec<DesktopApp>)
    ensures
        out@.len() == entries_view(entries@).filter(|e: EntryView| accepts(e)).len(),
        forall|k: int|
            0 <= k < out@.len() ==> made_from(
                #[trigger] out@[k]@,
                entries_view(entries@).filter(|e: EntryView| accepts(e))[k],
            ),
{
    let ghost pred = |e: EntryView| accepts(e);
    let ghost all = entries_view(entries@);
    let mut out: Vec<DesktopApp> = Vec::new();
    let mut i: usize = 0;
    while i < entries.len()
        invariant
            i <= entries.len(),
            all == entries_view(entries@),
            pred == (|e: EntryView| accepts(e)),
            out@.len() == all.take(i as int).filter(pred).len(),
            forall|k: int|
                0 <= k < out@.len() ==> made_from(
                    #[trigger] out@[k]@,
                    all.take(i as int).filter(pred)[k],
                ),
        decreases entries.len() - i,
    {
        proof {
            assert(all.take(i + 1) =~= all.take(i as int).push(entries@[i as int]@));
            all.take(i as int).lemma_filter_push(entries@[i as int]@, pred);
        }
        match to_desktop_app(&entries[i]) {
            Some(app) => {
                out.push(app);
            },
            None => {},
        }
        i += 1;
    }
    assert(all.take(entries.len() as int) =~= all);
    out
}

} // verus!
