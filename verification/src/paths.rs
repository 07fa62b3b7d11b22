//! Where credentials and session logs lie.
//!
//! A path is a root with names joined to it one by one. The root is the user's home directory or a
//! path written out as text; only the file system knows what they are.
use vstd::prelude::*;

use crate::text;

verus! {

/// Where a path starts.
#[derive(Debug)]
pub enum PathRoot {
    /// The user's home directory.
    Home,
    /// A path written out.
    Text(String),
}

/// A root with names joined to it one by one.
#[derive(Debug)]
pub struct PathPlan {
    pub root: PathRoot,
    pub parts: Vec<String>,
}

/// Where a path starts.
pub enum RootView {
    Home,
    Text(Seq<char>),
}

/// What a path consists of.
pub struct PathView {
    pub root: RootView,
    pub parts: Seq<Seq<char>>,
}

impl View for PathRoot {
    type V = RootView;

    open spec fn view(&self) -> RootView {
        match self {
            PathRoot::Home => RootView::Home,
            PathRoot::Text(written) => RootView::Text(written@),
        }
    }
}

impl View for PathPlan {
    type V = PathView;

    open spec fn view(&self) -> PathView {
        PathView { root: self.root@, parts: text::texts(self.parts@) }
    }
}

/// What the paths of a list consist of.
pub open spec fn path_views(paths: Seq<PathPlan>) -> Seq<PathView> {
    paths.map_values(|path: PathPlan| path@)
}

/// The user's home directory.
pub open spec fn home_view() -> PathView {
    PathView { root: RootView::Home, parts: Seq::empty() }
}

/// The path that a text writes out.
pub open spec fn written_path(written: Seq<char>) -> PathView {
    PathView { root: RootView::Text(written), parts: Seq::empty() }
}

/// The path with one more name joined to it.
pub open spec fn joined_path(path: PathView, name: Seq<char>) -> PathView {
    PathView { root: path.root, parts: path.parts.push(name) }
}

impl PathPlan {
    /// The user's home directory.
    pub fn home() -> (path: PathPlan)
        ensures
            path@ == home_view(),
    {
        let path = PathPlan { root: PathRoot::Home, parts: Vec::new() };
        assert(path@.parts =~= home_view().parts);
        path
    }

    /// The path that `written` writes out.
    pub fn written(written: &str) -> (path: PathPlan)
        ensures
            path@ == written_path(written@),
    {
        let path = PathPlan { root: PathRoot::Text(written.to_owned()), parts: Vec::new() };
        assert(path@.parts =~= written_path(written@).parts);
        path
    }

    /// A copy of this path.
    pub fn copy(&self) -> (path: PathPlan)
        ensures
            path@ == self@,
    {
        let root = match &self.root {
            PathRoot::Home => PathRoot::Home,
            PathRoot::Text(written) => PathRoot::Text(written.clone()),
        };
        PathPlan { root, parts: text::copies(&self.parts) }
    }

    /// Whether two paths consist of the same.
    pub fn same(&self, other: &PathPlan) -> (same: bool)
        ensures
            same == (self@ == other@),
    {
        let same_root = match (&self.root, &other.root) {
            (PathRoot::Home, PathRoot::Home) => true,
            (PathRoot::Text(left), PathRoot::Text(right)) => text::same_text(
                left.as_str(),
                right.as_str(),
            ),
            _ => false,
        };
        same_root && text::same_texts(&self.parts, &other.parts)
    }

    /// This path with one more name joined to it.
    pub fn join(&self, name: &str) -> (path: PathPlan)
        ensures
            path@ == joined_path(self@, name@),
    {
        let mut path = self.copy();
        let ghost before = path@;
        path.parts.push(name.to_owned());
        assert(path@.parts =~= before.parts.push(name@));
        path
    }
}

/// The path that a setting writes out: a leading `~` by itself or before a separator stands for the
/// user's home directory.
pub open spec fn expanded(value: Seq<char>) -> PathView {
    if value == "~"@ {
        home_view()
    } else {
        match text::after_prefix(value, "~/"@) {
            Some(rest) => joined_path(home_view(), rest),
            None => match text::after_prefix(value, "~\\"@) {
                Some(rest) => joined_path(home_view(), rest),
                None => written_path(value),
            },
        }
    }
}

/// The path that a setting writes out.
pub fn expand_home(value: &str) -> (path: PathPlan)
    ensures
        path@ == expanded(value@),
{
    if text::same_text(value, "~") {
        return PathPlan::home();
    }
    if let Some(rest) = text::strip_prefix(value, "~/") {
        return PathPlan::home().join(rest.as_str());
    }
    if let Some(rest) = text::strip_prefix(value, "~\\") {
        return PathPlan::home().join(rest.as_str());
    }
    PathPlan::written(value)
}

/// The credential file of a directory.
pub open spec fn auth_file(directory: PathView) -> PathView {
    joined_path(directory, "auth.json"@)
}

/// Where the credentials of the standard account may lie, in order: in the configured directory
/// alone, or in the two default directories where none is configured.
pub open spec fn standard_auth_files(codex_home: Option<Seq<char>>) -> Seq<PathView> {
    match codex_home {
        Some(value) if value.len() > 0 => seq![auth_file(written_path(value))],
        _ => seq![
            auth_file(joined_path(joined_path(home_view(), ".config"@), "codex"@)),
            auth_file(joined_path(home_view(), ".codex"@)),
        ],
    }
}

/// Where the credentials of the standard account may lie, in order.
pub fn candidate_paths(codex_home: Option<&str>) -> (paths: Vec<PathPlan>)
    ensures
        path_views(paths@) == standard_auth_files(text::text_view(codex_home)),
{
    let mut paths: Vec<PathPlan> = Vec::new();
    if let Some(value) = codex_home {
        if !text::is_empty_text(value) {
            paths.push(PathPlan::written(value).join("auth.json"));
            assert(path_views(paths@) =~= standard_auth_files(text::text_view(codex_home)));
            return paths;
        }
    }
    paths.push(PathPlan::home().join(".config").join("codex").join("auth.json"));
    paths.push(PathPlan::home().join(".codex").join("auth.json"));
    assert(path_views(paths@) =~= standard_auth_files(text::text_view(codex_home)));
    paths
}

/// Where the credentials of the standard account may lie, `configured` being the value of
/// `CODEX_HOME`.
pub fn auth_paths(configured: Option<&str>) -> (paths: Vec<PathPlan>)
    ensures
        path_views(paths@) == standard_auth_files(text::text_view(configured)),
{
    candidate_paths(configured)
}

/// The entries of a comma-separated setting: trimmed, without the empty ones.
pub open spec fn entries_of(pieces: Seq<Seq<char>>) -> Seq<Seq<char>>
    decreases pieces.len(),
{
    if pieces.len() == 0 {
        Seq::empty()
    } else {
        let before = entries_of(pieces.drop_last());
        let entry = text::trimmed(pieces.last());
        if entry.len() == 0 {
            before
        } else {
            before.push(entry)
        }
    }
}

/// The directories that the setting lists, where it is not blank.
pub open spec fn configured_directories(configured: Option<Seq<char>>) -> Option<Seq<PathView>> {
    match configured {
        Some(value) if text::trimmed(value).len() > 0 => Some(
            entries_of(text::split_at_each(value, ',')).map_values(
                |entry: Seq<char>| expanded(entry),
            ),
        ),
        _ => None,
    }
}

/// The directories that the setting lists, where it is not blank.
pub fn configured_homes(configured: Option<&str>) -> (paths: Option<Vec<PathPlan>>)
    ensures
        match paths {
            Some(inner) => configured_directories(text::text_view(configured)) == Some(
                path_views(inner@),
            ),
            None => configured_directories(text::text_view(configured)) is None,
        },
{
    let value = match configured {
        Some(value) => value,
        None => {
            return None;
        },
    };
    if text::is_empty_text(text::trim(value).as_str()) {
        return None;
    }
    let pieces = text::split(value, ',');
    let ghost views = text::texts(pieces@);
    let mut paths: Vec<PathPlan> = Vec::new();
    let mut i: usize = 0;
    assert(path_views(paths@) =~= entries_of(views.take(0)).map_values(
        |entry: Seq<char>| expanded(entry),
    ));
    while i < pieces.len()
        invariant
            views == text::texts(pieces@),
            i <= pieces@.len(),
            path_views(paths@) == entries_of(views.take(i as int)).map_values(
                |entry: Seq<char>| expanded(entry),
            ),
        decreases pieces@.len() - i,
    {
        let ghost before = paths@;
        let ghost known = entries_of(views.take(i as int));
        let entry = text::trim(pieces[i].as_str());
        assert(views.take(i + 1).drop_last() =~= views.take(i as int));
        assert(views.take(i + 1).last() == pieces@[i as int]@);
        if !text::is_empty_text(entry.as_str()) {
            paths.push(expand_home(entry.as_str()));
            assert(path_views(paths@) =~= path_views(before).push(expanded(entry@)));
            assert(known.push(entry@).map_values(|e: Seq<char>| expanded(e)) =~= known.map_values(
                |e: Seq<char>| expanded(e),
            ).push(expanded(entry@)));
        }
        i += 1;
    }
    assert(views.take(views.len() as int) =~= views);
    Some(paths)
}

/// The directories in which session logs lie, where `configured` is the value of `CODEX_HOME`.
pub open spec fn home_directories(configured: Option<Seq<char>>) -> Seq<PathView> {
    match configured_directories(configured) {
        Some(listed) => listed,
        None => seq![joined_path(home_view(), ".codex"@)],
    }
}

/// The directories in which session logs lie, `configured` being the value of `CODEX_HOME`.
pub fn codex_homes(configured: Option<&str>) -> (paths: Vec<PathPlan>)
    ensures
        path_views(paths@) == home_directories(text::text_view(configured)),
{
    match configured_homes(configured) {
        Some(paths) => paths,
        None => {
            let mut paths: Vec<PathPlan> = Vec::new();
            paths.push(PathPlan::home().join(".codex"));
            assert(path_views(paths@) =~= home_directories(text::text_view(configured)));
            paths
        },
    }
}

/// The directories of a home that hold session logs: its active and its archived sessions as far as
/// they exist, else the home itself.
pub open spec fn session_directories(home: PathView, has_active: bool, has_archived: bool) -> Seq<
    PathView,
> {
    let active = joined_path(home, "sessions"@);
    let archived = joined_path(home, "archived_sessions"@);
    if has_active && has_archived {
        seq![active, archived]
    } else if has_active {
        seq![active]
    } else if has_archived {
        seq![archived]
    } else {
        seq![home]
    }
}

/// The directories of a home that hold session logs, by whether its directories of active and of
/// archived sessions exist.
pub fn session_sources(home: &PathPlan, has_active: bool, has_archived: bool) -> (paths: Vec<
    PathPlan,
>)
    ensures
        path_views(paths@) == session_directories(home@, has_active, has_archived),
{
    let mut paths: Vec<PathPlan> = Vec::new();
    if has_active {
        paths.push(home.join("sessions"));
    }
    if has_archived {
        paths.push(home.join("archived_sessions"));
    }
    if paths.len() == 0 {
        paths.push(home.copy());
    }
    assert(path_views(paths@) =~= session_directories(home@, has_active, has_archived));
    paths
}

} // verus!
