//! Where the store lives on disk: the data directory of the application,
//! the directory of the index in it, and the root of the mirror, which a
//! user may set.

use vstd::prelude::*;
use crate::store::{setting_value, Store, JSON_STORAGE_PATH_SETTING_KEY};
use crate::text::{copy_range, from_chars, to_chars, trim_chars, trimmed};

verus! {

/// Name of the directory of the index in the data directory.
pub const INDEX_DIR_NAME: &'static str = "alfred_lucene_index";

/// Name of the default root of the mirror in the user's directories.
pub const DEFAULT_JSON_STORAGE_DIR_NAME: &'static str = "AlfredAlternativeData";

/// Name of the default root of the mirror in the data directory.
pub const FALLBACK_JSON_STORAGE_DIR_NAME: &'static str = "json_storage";

/// The directories of the user: the home directory, and the directory for
/// documents where the system names one.
#[derive(Debug, Clone)]
pub struct UserPaths {
    pub home: String,
    pub documents: Option<String>,
}

/// What the directories of the user are.
pub struct UserPathsView {
    pub home: Seq<char>,
    pub documents: Option<Seq<char>>,
}

impl View for UserPaths {
    type V = UserPathsView;

    open spec fn view(&self) -> UserPathsView {
        UserPathsView {
            home: self.home@,
            documents: match self.documents {
                Some(d) => Some(d@),
                None => None,
            },
        }
    }
}

/// What the directories of the user are, where they are known.
pub open spec fn known_user(user: Option<UserPaths>) -> Option<UserPathsView> {
    match user {
        Some(paths) => Some(paths@),
        None => None,
    }
}

/// What a directory is, where it is known.
pub open spec fn known_dir(dir: Option<String>) -> Option<Seq<char>> {
    match dir {
        Some(d) => Some(d@),
        None => None,
    }
}

/// What a working directory is, where one is given.
pub open spec fn given_dir(dir: Option<&str>) -> Option<Seq<char>> {
    match dir {
        Some(d) => Some(d@),
        None => None,
    }
}

/// The path that the platform makes of a path and a path to go on with
/// from there.
pub uninterp spec fn joined_path(base: Seq<char>, child: Seq<char>) -> Seq<char>;

/// Whether the platform takes a path to be absolute.
pub uninterp spec fn path_is_absolute(path: Seq<char>) -> bool;

/// Calls `directories::ProjectDirs::from` and reads `data_dir` of what it
/// gives. The outcome depends on the system and the environment: nothing
/// is claimed of it.
#[verifier::external_body]
fn project_data_dir_of(qualifier: &str, organization: &str, application: &str) -> (r: Option<String>) {
    directories::ProjectDirs::from(qualifier, organization, application)
        .map(|dirs| dirs.data_dir().to_string_lossy().to_string())
}

/// Calls `directories::UserDirs::new` and reads `home_dir` and
/// `document_dir` of what it gives. The outcome depends on the system and
/// the environment: nothing is claimed of it.
#[verifier::external_body]
fn user_paths() -> (r: Option<UserPaths>) {
    directories::UserDirs::new().map(|dirs| UserPaths {
        home: dirs.home_dir().to_string_lossy().to_string(),
        documents: dirs.document_dir().map(|path| path.to_string_lossy().to_string()),
    })
}

/// Calls `std::path::Path::join`, which works on the two paths alone. How
/// it joins them is the platform's matter: the result is named
/// `joined_path`.
#[verifier::external_body]
pub(crate) fn join_path(base: &str, child: &str) -> (r: String)
    ensures
        r@ == joined_path(base@, child@),
{
    std::path::Path::new(base).join(child).to_string_lossy().to_string()
}

/// Calls `std::path::Path::is_absolute`, which works on the path alone.
/// What is absolute is the platform's matter: the result is named
/// `path_is_absolute`.
#[verifier::external_body]
fn is_absolute_path(path: &str) -> (r: bool)
    ensures
        r == path_is_absolute(path@),
{
    std::path::Path::new(path).is_absolute()
}

/// The data directory of the application, where the system names one.
pub fn project_data_dir() -> (r: Option<String>) {
    project_data_dir_of("com", "Codex", "alfred_alt")
}

/// The directory of the index for a data directory: the directory of the
/// index joined to it.
pub open spec fn index_path_for(data_dir: Option<Seq<char>>) -> Option<Seq<char>> {
    match data_dir {
        Some(dir) => Some(joined_path(dir, INDEX_DIR_NAME@)),
        None => None,
    }
}

/// The path is that of the index for some outcome of asking the system
/// for the data directory.
pub open spec fn is_index_path(path: Option<Seq<char>>) -> bool {
    exists|data_dir: Option<Seq<char>>| path == #[trigger] index_path_for(data_dir)
}

/// The directory of the index in a data directory.
pub fn index_path_in(data_dir: &Option<String>) -> (r: Option<String>)
    ensures
        known_dir(r) == index_path_for(known_dir(*data_dir)),
{
    match data_dir {
        Some(dir) => Some(join_path(dir.as_str(), INDEX_DIR_NAME)),
        None => None,
    }
}

/// The directory of the index, where the system names a data directory:
/// the directory of the index joined to the data directory.
pub fn index_path() -> (r: Option<String>)
    ensures
        is_index_path(known_dir(r)),
{
    let data_dir = project_data_dir();
    index_path_in(&data_dir)
}

/// Where the default root of the mirror lies.
#[derive(Clone, Copy, Debug, PartialEq, Eq, Structural)]
pub enum RootBase {
    /// In the user's directory for documents.
    Documents,
    /// In the user's home directory.
    Home,
    /// In the data directory of the application.
    DataDir,
    /// Nowhere known: the bare name of the root.
    Nowhere,
}

/// Where the default root of the mirror lies: with the user's documents,
/// else in the home directory, else in the data directory of the
/// application, else nowhere.
pub open spec fn root_base_for(user: Option<UserPathsView>, data_dir_known: bool) -> RootBase {
    match user {
        Some(paths) => if paths.documents is Some {
            RootBase::Documents
        } else {
            RootBase::Home
        },
        None => if data_dir_known {
            RootBase::DataDir
        } else {
            RootBase::Nowhere
        },
    }
}

/// The default root of the mirror for what the system names: the name of
/// the root joined to the user's documents or home directory, else the
/// name of the fallback joined to the data directory of the application,
/// else the bare name of the root.
pub open spec fn default_root_for(user: Option<UserPathsView>, data_dir: Option<Seq<char>>) -> Seq<
    char,
> {
    match root_base_for(user, data_dir is Some) {
        RootBase::Documents => joined_path(user->0.documents->0, DEFAULT_JSON_STORAGE_DIR_NAME@),
        RootBase::Home => joined_path(user->0.home, DEFAULT_JSON_STORAGE_DIR_NAME@),
        RootBase::DataDir => joined_path(data_dir->0, FALLBACK_JSON_STORAGE_DIR_NAME@),
        RootBase::Nowhere => DEFAULT_JSON_STORAGE_DIR_NAME@,
    }
}

/// The path is the default root of the mirror for some outcome of asking
/// the system for the user's directories and the data directory.
pub open spec fn is_default_root(path: Seq<char>) -> bool {
    exists|user: Option<UserPathsView>, data_dir: Option<Seq<char>>|
        path == #[trigger] default_root_for(user, data_dir)
}

/// Chooses where the default root of the mirror lies.
pub fn choose_root_base(user: &Option<UserPaths>, data_dir_known: bool) -> (base: RootBase)
    ensures
        base == root_base_for(known_user(*user), data_dir_known),
{
    match user {
        Some(paths) => match &paths.documents {
            Some(_) => RootBase::Documents,
            None => RootBase::Home,
        },
        None => if data_dir_known {
            RootBase::DataDir
        } else {
            RootBase::Nowhere
        },
    }
}

/// The default root of the mirror for the directories that the system
/// named.
pub fn default_root_from(user: &Option<UserPaths>, data_dir: &Option<String>) -> (r: String)
    ensures
        r@ == default_root_for(known_user(*user), known_dir(*data_dir)),
{
    match choose_root_base(user, data_dir.is_some()) {
        RootBase::Documents => match user {
            Some(paths) => match &paths.documents {
                Some(documents) => join_path(documents.as_str(), DEFAULT_JSON_STORAGE_DIR_NAME),
                None => vstd::pervasive::unreached(),
            },
            None => vstd::pervasive::unreached(),
        },
        RootBase::Home => match user {
            Some(paths) => join_path(paths.home.as_str(), DEFAULT_JSON_STORAGE_DIR_NAME),
            None => vstd::pervasive::unreached(),
        },
        RootBase::DataDir => match data_dir {
            Some(dir) => join_path(dir.as_str(), FALLBACK_JSON_STORAGE_DIR_NAME),
            None => vstd::pervasive::unreached(),
        },
        RootBase::Nowhere => DEFAULT_JSON_STORAGE_DIR_NAME.to_owned(),
    }
}

/// Asks the system for the user's directories and, where it names none,
/// for the data directory of the application.
fn ask_directories() -> (r: (Option<UserPaths>, Option<String>)) {
    let user = user_paths();
    let data_dir = match &user {
        Some(_) => None,
        None => project_data_dir(),
    };
    (user, data_dir)
}

/// The default root of the mirror: the root that follows from the
/// directories that the system names.
pub fn default_json_storage_root() -> (r: String)
    ensures
        is_default_root(r@),
{
    let (user, data_dir) = ask_directories();
    default_root_from(&user, &data_dir)
}

/// The default root of the mirror, as the setting holds it.
pub fn default_json_storage_path_string() -> (r: String)
    ensures
        is_default_root(r@),
{
    default_json_storage_root()
}

/// How the root of the mirror follows from the path that a user gave.
#[derive(Debug, Clone)]
pub enum StoragePathPlan {
    /// Nothing was given: the default root.
    DefaultRoot,
    /// The home directory itself.
    Home,
    /// The given path below the home directory.
    UnderHome(String),
    /// The given path as it stands.
    Literal(String),
}

/// What the plan is.
pub enum PathPlanView {
    DefaultRoot,
    Home,
    UnderHome(Seq<char>),
    Literal(Seq<char>),
}

impl View for StoragePathPlan {
    type V = PathPlanView;

    open spec fn view(&self) -> PathPlanView {
        match *self {
            StoragePathPlan::DefaultRoot => PathPlanView::DefaultRoot,
            StoragePathPlan::Home => PathPlanView::Home,
            StoragePathPlan::UnderHome(s) => PathPlanView::UnderHome(s@),
            StoragePathPlan::Literal(s) => PathPlanView::Literal(s@),
        }
    }
}

/// The plan for a path: the default for an empty one, the home directory
/// for a tilde, a path below it for a tilde and a slash, as far as the home
/// directory is known; else the path as it stands, trimmed.
pub open spec fn path_plan(raw: Seq<char>, home_known: bool) -> PathPlanView {
    let path = trimmed(raw);
    if path.len() == 0 {
        PathPlanView::DefaultRoot
    } else if home_known && path == seq!['~'] {
        PathPlanView::Home
    } else if home_known && path.len() >= 2 && path[0] == '~' && path[1] == '/' {
        PathPlanView::UnderHome(path.subrange(2, path.len() as int))
    } else {
        PathPlanView::Literal(path)
    }
}

/// Plans how the root of the mirror follows from a path.
pub fn plan_storage_path(raw_path: &str, home_known: bool) -> (plan: StoragePathPlan)
    ensures
        plan@ == path_plan(raw_path@, home_known),
{
    let path = trim_chars(&to_chars(raw_path));
    if path.len() == 0 {
        StoragePathPlan::DefaultRoot
    } else if home_known && path.len() == 1 && path[0] == '~' {
        assert(path@ =~= seq!['~']);
        StoragePathPlan::Home
    } else if home_known && path.len() >= 2 && path[0] == '~' && path[1] == '/' {
        StoragePathPlan::UnderHome(from_chars(&copy_range(&path, 2, path.len())))
    } else {
        StoragePathPlan::Literal(from_chars(&path))
    }
}


/// The path that a plan leads to before it is made absolute; none for the
/// plan that leads to the default root. A plan speaks of the home
/// directory only where that is known.
pub open spec fn expanded_for(plan: PathPlanView, user: Option<UserPathsView>) -> Option<Seq<char>> {
    match plan {
        PathPlanView::DefaultRoot => None,
        PathPlanView::Home => Some(user->0.home),
        PathPlanView::UnderHome(suffix) => Some(joined_path(user->0.home, suffix)),
        PathPlanView::Literal(path) => Some(path),
    }
}

/// The path made absolute: as it is where the platform takes it to be
/// absolute or no working directory is given, else joined to the working
/// directory.
pub open spec fn absolute_for(path: Seq<char>, working_dir: Option<Seq<char>>) -> Seq<char> {
    if path_is_absolute(path) {
        path
    } else {
        match working_dir {
            Some(dir) => joined_path(dir, path),
            None => path,
        }
    }
}

/// The root of the mirror for a path that a user gave and what the system
/// names: the default root for an empty path; else the path, with a tilde
/// taken for the home directory where that is known, made absolute.
pub open spec fn normalized_for(
    raw: Seq<char>,
    working_dir: Option<Seq<char>>,
    user: Option<UserPathsView>,
    data_dir: Option<Seq<char>>,
) -> Seq<char> {
    match expanded_for(path_plan(raw, user is Some), user) {
        None => default_root_for(user, data_dir),
        Some(path) => absolute_for(path, working_dir),
    }
}

/// The path is the root of the mirror for the given path and some outcome
/// of asking the system for the user's directories and the data directory.
pub open spec fn is_normalized(path: Seq<char>, raw: Seq<char>, working_dir: Option<Seq<char>>) -> bool {
    exists|user: Option<UserPathsView>, data_dir: Option<Seq<char>>|
        path == #[trigger] normalized_for(raw, working_dir, user, data_dir)
}

/// The root of the mirror that follows from a stored path, or from none.
pub open spec fn root_for_setting(
    stored: Option<Seq<char>>,
    working_dir: Option<Seq<char>>,
    user: Option<UserPathsView>,
    data_dir: Option<Seq<char>>,
) -> Seq<char> {
    match stored {
        Some(raw) => normalized_for(raw, working_dir, user, data_dir),
        None => default_root_for(user, data_dir),
    }
}

/// The path is the root of the mirror for the stored path and some outcome
/// of asking the system for the user's directories and the data directory.
pub open spec fn is_root_for_setting(
    path: Seq<char>,
    stored: Option<Seq<char>>,
    working_dir: Option<Seq<char>>,
) -> bool {
    exists|user: Option<UserPathsView>, data_dir: Option<Seq<char>>|
        path == #[trigger] root_for_setting(stored, working_dir, user, data_dir)
}

/// The root of the mirror for a path that a user gave and the directories
/// that the system named.
pub fn normalize_storage_path_from(
    raw_path: &str,
    working_dir: Option<&str>,
    user: &Option<UserPaths>,
    data_dir: &Option<String>,
) -> (r: String)
    ensures
        r@ == normalized_for(
            raw_path@,
            given_dir(working_dir),
            known_user(*user),
            known_dir(*data_dir),
        ),
{
    let expanded = match plan_storage_path(raw_path, user.is_some()) {
        StoragePathPlan::DefaultRoot => {
            return default_root_from(user, data_dir);
        },
        StoragePathPlan::Home => match user {
            Some(paths) => paths.home.clone(),
            None => vstd::pervasive::unreached(),
        },
        StoragePathPlan::UnderHome(suffix) => match user {
            Some(paths) => join_path(paths.home.as_str(), suffix.as_str()),
            None => vstd::pervasive::unreached(),
        },
        StoragePathPlan::Literal(path) => path,
    };
    if is_absolute_path(expanded.as_str()) {
        expanded
    } else {
        match working_dir {
            Some(dir) => join_path(dir, expanded.as_str()),
            None => expanded,
        }
    }
}

/// The root of the mirror for a path that a user gave: the default for an
/// empty path, a tilde taken for the home directory, and a relative path
/// taken from the working directory where one is known.
pub fn normalize_storage_path(raw_path: &str, working_dir: Option<&str>) -> (r: String)
    ensures
        is_normalized(r@, raw_path@, given_dir(working_dir)),
{
    let (user, data_dir) = ask_directories();
    normalize_storage_path_from(raw_path, working_dir, &user, &data_dir)
}

/// The root of the mirror that the settings name: the stored path,
/// normalized, or the default root where none is stored.
pub fn json_storage_root_from_settings(store: &Store, working_dir: Option<&str>) -> (r: String)
    requires
        store.wf(),
    ensures
        is_root_for_setting(
            r@,
            setting_value(store@.settings, JSON_STORAGE_PATH_SETTING_KEY@),
            given_dir(working_dir),
        ),
{
    let stored = store.setting(JSON_STORAGE_PATH_SETTING_KEY);
    let (user, data_dir) = ask_directories();
    let r = match &stored {
        Some(raw) => normalize_storage_path_from(raw.as_str(), working_dir, &user, &data_dir),
        None => default_root_from(&user, &data_dir),
    };
    assert(r@ == root_for_setting(
        setting_value(store@.settings, JSON_STORAGE_PATH_SETTING_KEY@),
        given_dir(working_dir),
        known_user(user),
        known_dir(data_dir),
    ));
    r
}

/// Reads the root of the mirror: the stored path, normalized, or the
/// default root where none is stored.
pub fn load_json_storage_path_setting(store: &Store, working_dir: Option<&str>) -> (r: String)
    requires
        store.wf(),
    ensures
        is_root_for_setting(
            r@,
            setting_value(store@.settings, JSON_STORAGE_PATH_SETTING_KEY@),
            given_dir(working_dir),
        ),
{
    json_storage_root_from_settings(store, working_dir)
}

/// Stores the root of the mirror: the given path, normalized. The notes
/// and the other settings stay as they are.
pub fn save_json_storage_path_setting(store: &mut Store, value: &str, working_dir: Option<&str>)
    requires
        old(store).wf(),
    ensures
        final(store).wf(),
        final(store)@.items == old(store)@.items,
        final(store).next_item_id == old(store).next_item_id,
        setting_value(final(store)@.settings, JSON_STORAGE_PATH_SETTING_KEY@) is Some,
        is_normalized(
            setting_value(final(store)@.settings, JSON_STORAGE_PATH_SETTING_KEY@)->0,
            value@,
            given_dir(working_dir),
        ),
        forall|other: Seq<char>|
            other != JSON_STORAGE_PATH_SETTING_KEY@ ==> setting_value(final(store)@.settings, other)
                == setting_value(old(store)@.settings, other),
{
    let normalized = normalize_storage_path(value, working_dir);
    store.set_setting(JSON_STORAGE_PATH_SETTING_KEY, normalized.as_str());
}

} // verus!
