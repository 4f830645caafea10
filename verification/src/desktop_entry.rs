//! Plain data shape for a `.desktop` application entry after all the XDG
//! spec quirks have been handled. The loader (`xdg.rs`) produces these;
//! `dedupe.rs` and `category_filter.rs` consume them.
use vstd::prelude::*;

verus! {

/// Scope a `.desktop` file came from. User-scoped entries win ties
/// against system-scoped ones during dedupe.
#[derive(Debug, Clone, Copy, PartialEq, Eq, Structural, PartialOrd, Ord)]
pub enum Scope {
    /// `/usr/share/applications`, `/usr/local/share/applications`, etc.
    System,
    /// `$XDG_DATA_HOME/applications`, defaulting to `~/.local/share/applications`.
    User,
}

impl Scope {
    /// Priority of the scope: `User` outranks `System`.
    pub open spec fn rank(self) -> int {
        match self {
            Scope::System => 0,
            Scope::User => 1,
        }
    }

    /// Whether `self` has a strictly higher priority than `other`.
    pub fn outranks(&self, other: &Scope) -> (b: bool)
        ensures
            b == (self.rank() > other.rank()),
    {
        match (self, other) {
            (Scope::User, Scope::System) => true,
            _ => false,
        }
    }
}

#[derive(Debug, Clone, PartialEq, Eq)]
pub struct DesktopApp {
    /// Filename stem (e.g. `google-chrome` from `google-chrome.desktop`).
    pub appid: String,
    /// Display name shown to the user.
    pub name: String,
    /// Icon identifier (icon theme name or absolute path) if present.
    pub icon: Option<String>,
    /// `Exec=` line with field codes stripped and whitespace collapsed.
    pub exec_line: String,
    /// Origin directory scope.
    pub scope: Scope,
    /// Raw `Categories=` values, as written in the file.
    pub categories: Vec<String>,
}

/// The mathematical content of a [`DesktopApp`].
pub struct DesktopAppView {
    pub appid: Seq<char>,
    pub name: Seq<char>,
    pub icon: Option<Seq<char>>,
    pub exec_line: Seq<char>,
    pub scope: Scope,
    pub categories: Seq<Seq<char>>,
}

/// The view of an optional string.
pub open spec fn opt_view(o: Option<String>) -> Option<Seq<char>> {
    match o {
        Some(s) => Some(s@),
        None => None,
    }
}

/// The views of a list of strings.
pub open spec fn strings_view(v: Seq<String>) -> Seq<Seq<char>> {
    v.map_values(|s: String| s@)
}

impl View for DesktopApp {
    type V = DesktopAppView;

    open spec fn view(&self) -> DesktopAppView {
        DesktopAppView {
            appid: self.appid@,
            name: self.name@,
            icon: opt_view(self.icon),
            exec_line: self.exec_line@,
            scope: self.scope,
            categories: strings_view(self.categories@),
        }
    }
}

/// The views of a list of apps.
pub open spec fn apps_view(apps: Seq<DesktopApp>) -> Seq<DesktopAppView> {
    apps.map_values(|a: DesktopApp| a@)
}

/// Two apps launch the same thing when both `name` and `exec_line` agree.
pub open spec fn same_launch_spec(a: DesktopAppView, b: DesktopAppView) -> bool {
    a.name == b.name && a.exec_line == b.exec_line
}

impl DesktopApp {
    /// Apps are equivalent for dedupe if both `name` and `exec_line` match.
    pub fn same_launch(&self, other: &DesktopApp) -> (b: bool)
        ensures
            b == same_launch_spec(self@, other@),
    {
        self.name == other.name && self.exec_line == other.exec_line
    }
}

} // verus!
