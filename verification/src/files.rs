//! Where the client keeps its files, and how private files are put there.
//!
//! A path is a directory that the platform names, and the components below it.
//! What has to be done to the file system is a list of actions, to be performed
//! in order and each as far as it succeeds.

use vstd::prelude::*;
use crate::text::{self, push_number};

verus! {

/// The platform, as far as it decides where files go: which kind it is, which of
/// the environment's directories are set, and on Unix the user's id.
#[derive(Debug, Clone, Copy, PartialEq, Eq, Structural)]
pub enum Host {
    /// Windows; whether `LOCALAPPDATA` is set.
    Windows { local_app_data: bool },
    /// A Unix; whether `XDG_RUNTIME_DIR` is set, and the id of the user.
    Unix { runtime_dir: bool, uid: u32 },
    /// Anything else; whether `XDG_RUNTIME_DIR` is set.
    Other { runtime_dir: bool },
}

/// The directory that a path starts from.
#[derive(Debug, Clone, Copy, PartialEq, Eq, Structural)]
pub enum PathBase {
    /// The value of `LOCALAPPDATA`.
    LocalAppData,
    /// The platform's directory for temporary files.
    TempDir,
    /// The value of `XDG_RUNTIME_DIR`.
    RuntimeDir,
    /// The root of the file system.
    Root,
}

/// A path: components below a base directory.
#[derive(Debug, PartialEq, Eq)]
pub struct FilePath {
    pub base: PathBase,
    pub components: Vec<String>,
}

/// A path with its components as sequences of characters.
#[verifier::ext_equal]
pub struct PathView {
    pub base: PathBase,
    pub components: Seq<Seq<char>>,
}

impl View for FilePath {
    type V = PathView;

    open spec fn view(&self) -> PathView {
        PathView { base: self.base, components: text::texts(self.components@) }
    }
}

impl PathView {
    /// The path one component further down.
    pub open spec fn child(self, name: Seq<char>) -> PathView {
        PathView { base: self.base, components: self.components.push(name) }
    }

    /// The path one component further up.
    pub open spec fn parent(self) -> PathView
        recommends
            self.components.len() > 0,
    {
        PathView { base: self.base, components: self.components.drop_last() }
    }
}

impl Clone for FilePath {
    fn clone(&self) -> (path: FilePath)
        ensures
            path@ == self@,
    {
        let mut components: Vec<String> = Vec::new();
        let n: usize = self.components.len();
        for i in 0..n
            invariant
                n == self.components@.len(),
                components@.len() == i,
                forall|j: int| 0 <= j < i ==> #[trigger] components@[j]@ == self.components@[j]@,
        {
            components.push(self.components[i].clone());
        }
        assert(text::texts(components@) =~= text::texts(self.components@));
        FilePath { base: self.base, components }
    }
}

impl FilePath {
    /// The base directory itself.
    pub fn at(base: PathBase) -> (path: FilePath)
        ensures
            path@ == (PathView { base, components: Seq::empty() }),
    {
        let path = FilePath { base, components: Vec::new() };
        assert(path@ =~= (PathView { base, components: Seq::empty() }));
        path
    }

    /// The path one component further down.
    pub fn join(self, name: &str) -> (path: FilePath)
        ensures
            path@ == self@.child(name@),
    {
        let mut components = self.components;
        components.push(name.to_string());
        let path = FilePath { base: self.base, components };
        assert(path@ =~= self@.child(name@));
        path
    }

    /// The path one component further up.
    pub fn parent(&self) -> (path: FilePath)
        requires
            self@.components.len() > 0,
        ensures
            path@ == self@.parent(),
    {
        let mut path = self.clone();
        let ghost before = path.components@;
        path.components.pop();
        assert(text::texts(path.components@) =~= text::texts(before).drop_last());
        path
    }
}

// ---------------------------------------------------------------------------
// Places
// ---------------------------------------------------------------------------

/// The components of a path below the root of the file system.
pub open spec fn below_root(components: Seq<Seq<char>>) -> PathView {
    PathView { base: PathBase::Root, components }
}

/// The name of a user's own directory below the shared one for temporary files.
pub open spec fn user_dir_name(uid: u32) -> Seq<char> {
    "aivpn-"@ + text::number_text(uid as nat, 10)
}

/// Where the token of the admin socket is kept.
///
/// The runtime directory is preferred to the shared one for temporary files: it
/// belongs to the user alone. Without it the token has a directory of its own
/// below the shared one, with the user's id in its name, never just a file there:
/// the directory that holds the token is closed to others.
pub open spec fn token_path(host: Host) -> PathView {
    match host {
        Host::Windows { local_app_data } => if local_app_data {
            PathView {
                base: PathBase::LocalAppData,
                components: seq!["AIVPN"@, "admin.token"@],
            }
        } else {
            PathView { base: PathBase::TempDir, components: seq!["aivpn-admin.token"@] }
        },
        Host::Unix { runtime_dir, uid } => if runtime_dir {
            PathView { base: PathBase::RuntimeDir, components: seq!["aivpn"@, "admin.token"@] }
        } else {
            below_root(seq!["tmp"@, user_dir_name(uid), "admin.token"@])
        },
        Host::Other { runtime_dir } => if runtime_dir {
            PathView { base: PathBase::RuntimeDir, components: seq!["aivpn"@, "admin.token"@] }
        } else {
            below_root(seq!["tmp"@, user_dir_name(0), "admin.token"@])
        },
    }
}

/// The directory that holds the files of the admin socket.
pub open spec fn ipc_dir(host: Host) -> PathView {
    token_path(host).parent()
}

/// Where the address of the admin socket is kept.
pub open spec fn listen_path(host: Host) -> PathView {
    ipc_dir(host).child("admin.listen"@)
}

/// The user's own directory below the shared one for temporary files.
fn user_dir(uid: u32) -> (dir: FilePath)
    ensures
        dir@ == below_root(seq!["tmp"@, user_dir_name(uid)]),
{
    let mut name = "aivpn-".to_string();
    push_number(&mut name, uid, 10);
    let dir = FilePath::at(PathBase::Root).join("tmp").join(name.as_str());
    assert(dir@ =~= below_root(seq!["tmp"@, user_dir_name(uid)]));
    dir
}

/// Where the token of the admin socket is kept.
pub fn admin_token_path(host: &Host) -> (path: FilePath)
    ensures
        path@ == token_path(*host),
{
    let path = match *host {
        Host::Windows { local_app_data } => if local_app_data {
            FilePath::at(PathBase::LocalAppData).join("AIVPN").join("admin.token")
        } else {
            FilePath::at(PathBase::TempDir).join("aivpn-admin.token")
        },
        Host::Unix { runtime_dir, uid } => if runtime_dir {
            FilePath::at(PathBase::RuntimeDir).join("aivpn").join("admin.token")
        } else {
            user_dir(uid).join("admin.token")
        },
        Host::Other { runtime_dir } => if runtime_dir {
            FilePath::at(PathBase::RuntimeDir).join("aivpn").join("admin.token")
        } else {
            user_dir(0).join("admin.token")
        },
    };
    assert(path@ =~= token_path(*host));
    path
}

/// The directory that holds the files of the admin socket.
pub fn admin_ipc_dir(host: &Host) -> (dir: FilePath)
    ensures
        dir@ == ipc_dir(*host),
{
    admin_token_path(host).parent()
}

/// Where the address of the admin socket is kept.
pub fn admin_listen_path(host: &Host) -> (path: FilePath)
    ensures
        path@ == listen_path(*host),
{
    admin_ipc_dir(host).join("admin.listen")
}

/// Where the status of a recording is kept, the first place first.
pub open spec fn status_paths(host: Host) -> Seq<PathView> {
    match host {
        Host::Windows { local_app_data } => {
            let temp = PathView {
                base: PathBase::TempDir,
                components: seq!["aivpn-recording.status"@],
            };
            if local_app_data {
                seq![
                    PathView {
                        base: PathBase::LocalAppData,
                        components: seq!["AIVPN"@, "recording.status"@],
                    },
                    temp,
                ]
            } else {
                seq![temp]
            }
        },
        _ => seq![
            below_root(seq!["var"@, "run"@, "aivpn"@, "recording.status"@]),
            below_root(seq!["tmp"@, "aivpn-recording.status"@]),
        ],
    }
}

/// The paths that a list of paths stands for.
pub open spec fn path_views(paths: Seq<FilePath>) -> Seq<PathView> {
    paths.map_values(|p: FilePath| p@)
}

/// Where the status of a recording is kept, the first place first.
pub fn recording_status_paths(host: &Host) -> (paths: Vec<FilePath>)
    ensures
        path_views(paths@) == status_paths(*host),
{
    let mut paths: Vec<FilePath> = Vec::new();
    match *host {
        Host::Windows { local_app_data } => {
            if local_app_data {
                paths.push(
                    FilePath::at(PathBase::LocalAppData).join("AIVPN").join("recording.status"),
                );
            }
            paths.push(FilePath::at(PathBase::TempDir).join("aivpn-recording.status"));
        },
        _ => {
            paths.push(
                FilePath::at(PathBase::Root).join("var").join("run").join("aivpn").join(
                    "recording.status",
                ),
            );
            paths.push(FilePath::at(PathBase::Root).join("tmp").join("aivpn-recording.status"));
        },
    }
    assert(path_views(paths@) =~~= status_paths(*host));
    paths
}

/// The directory that is made before a status file is looked for, if there is one.
pub fn recording_status_dir(host: &Host) -> (dir: Option<FilePath>)
    ensures
        match *host {
            Host::Windows { local_app_data: true } => dir matches Some(d) && d@ == status_paths(
                *host,
            )[0].parent(),
            _ => dir is None,
        },
{
    match *host {
        Host::Windows { local_app_data: true } => {
            let dir = FilePath::at(PathBase::LocalAppData).join("AIVPN");
            assert(dir@ =~= status_paths(*host)[0].parent());
            Some(dir)
        },
        _ => None,
    }
}

// ---------------------------------------------------------------------------
// Actions
// ---------------------------------------------------------------------------

/// The permissions of a directory that only its owner may enter.
pub const PRIVATE_DIR_MODE: u32 = 0o700;

/// The permissions of a file that only its owner may read and write.
pub const PRIVATE_FILE_MODE: u32 = 0o600;

/// One thing to be done to the file system.
#[derive(Debug, PartialEq, Eq)]
pub enum FileAction {
    /// Make the directory, and those above it, unless they are there.
    CreateDirAll { dir: FilePath },
    /// Set the permissions of what the path names.
    SetMode { path: FilePath, mode: u32 },
    /// Remove the file.
    Remove { path: FilePath },
    /// Make a new file with these permissions and contents. If anything is there
    /// under that name already, a symbolic link too, fail.
    CreateNew { path: FilePath, mode: u32, contents: String },
    /// Write the contents to the file, in place of what it holds. If that
    /// succeeded, set its permissions to the given ones.
    Write { path: FilePath, contents: String, mode_after: Option<u32> },
}

/// An action with its paths and texts as sequences.
#[verifier::ext_equal]
pub enum ActionView {
    CreateDirAll { dir: PathView },
    SetMode { path: PathView, mode: u32 },
    Remove { path: PathView },
    CreateNew { path: PathView, mode: u32, contents: Seq<char> },
    Write { path: PathView, contents: Seq<char>, mode_after: Option<u32> },
}

impl View for FileAction {
    type V = ActionView;

    open spec fn view(&self) -> ActionView {
        match *self {
            FileAction::CreateDirAll { dir } => ActionView::CreateDirAll { dir: dir@ },
            FileAction::SetMode { path, mode } => ActionView::SetMode { path: path@, mode },
            FileAction::Remove { path } => ActionView::Remove { path: path@ },
            FileAction::CreateNew { path, mode, contents } => ActionView::CreateNew {
                path: path@,
                mode,
                contents: contents@,
            },
            FileAction::Write { path, contents, mode_after } => ActionView::Write {
                path: path@,
                contents: contents@,
                mode_after,
            },
        }
    }
}

/// The actions that a list of actions stands for.
pub open spec fn action_views(actions: Seq<FileAction>) -> Seq<ActionView> {
    actions.map_values(|a: FileAction| a@)
}

/// How a private file is put in its place.
///
/// On Unix its directory is closed to others first. Then whatever stands under
/// its name is removed, be it from an earlier run or planted there, and the file
/// is made anew with its final permissions, so that at no time others can read it
/// and no link is followed.
pub open spec fn private_file(host: Host, path: PathView, contents: Seq<char>) -> Seq<ActionView> {
    match host {
        Host::Unix { runtime_dir, uid } => seq![
            ActionView::CreateDirAll { dir: path.parent() },
            ActionView::SetMode { path: path.parent(), mode: PRIVATE_DIR_MODE },
            ActionView::Remove { path },
            ActionView::CreateNew { path, mode: PRIVATE_FILE_MODE, contents },
        ],
        _ => seq![
            ActionView::CreateDirAll { dir: path.parent() },
            ActionView::Remove { path },
            ActionView::Write { path, contents, mode_after: None },
        ],
    }
}

/// The actions that put a private file in its place.
pub fn private_file_actions(host: &Host, path: FilePath, contents: &str) -> (actions: Vec<
    FileAction,
>)
    requires
        path@.components.len() > 0,
    ensures
        action_views(actions@) == private_file(*host, path@, contents@),
{
    let mut actions: Vec<FileAction> = Vec::new();
    actions.push(FileAction::CreateDirAll { dir: path.parent() });
    match *host {
        Host::Unix { runtime_dir: _, uid: _ } => {
            actions.push(FileAction::SetMode { path: path.parent(), mode: PRIVATE_DIR_MODE });
            actions.push(FileAction::Remove { path: path.clone() });
            actions.push(
                FileAction::CreateNew {
                    path,
                    mode: PRIVATE_FILE_MODE,
                    contents: contents.to_string(),
                },
            );
        },
        _ => {
            actions.push(FileAction::Remove { path: path.clone() });
            actions.push(
                FileAction::Write { path, contents: contents.to_string(), mode_after: None },
            );
        },
    }
    assert(action_views(actions@) =~= private_file(*host, path@, contents@));
    actions
}

/// How a status is put in all of its places: each of them is written, and on Unix
/// closed to others.
pub open spec fn status_files(host: Host, json: Seq<char>) -> Seq<ActionView> {
    status_paths(host).map_values(
        |path: PathView|
            ActionView::Write {
                path,
                contents: json,
                mode_after: match host {
                    Host::Unix { runtime_dir, uid } => Some(PRIVATE_FILE_MODE),
                    _ => None,
                },
            },
    )
}

/// The actions that put a status, given as JSON text, in all of its places.
pub fn write_status(host: &Host, json: &str) -> (actions: Vec<FileAction>)
    ensures
        action_views(actions@) == status_files(*host, json@),
{
    let mode_after: Option<u32> = match *host {
        Host::Unix { runtime_dir: _, uid: _ } => Some(PRIVATE_FILE_MODE),
        _ => None,
    };
    let paths = recording_status_paths(host);
    let n: usize = paths.len();
    let mut actions: Vec<FileAction> = Vec::new();
    for i in 0..n
        invariant
            n == paths@.len(),
            path_views(paths@) == status_paths(*host),
            mode_after == match *host {
                Host::Unix { runtime_dir, uid } => Some(PRIVATE_FILE_MODE),
                _ => None,
            },
            actions@.len() == i,
            forall|j: int|
                0 <= j < i ==> #[trigger] actions@[j]@ == status_files(*host, json@)[j],
    {
        assert(paths@[i as int]@ == path_views(paths@)[i as int]);
        actions.push(
            FileAction::Write { path: paths[i].clone(), contents: json.to_string(), mode_after },
        );
        assert(actions@[i as int]@ == status_files(*host, json@)[i as int]);
    }
    assert(action_views(actions@) =~= status_files(*host, json@));
    actions
}

// ---------------------------------------------------------------------------
// What the actions come to
// ---------------------------------------------------------------------------

/// The files after an action, where `files` gives what each file held before it.
/// Actions on directories and permissions leave the files as they are.
pub open spec fn performed(files: Map<PathView, Seq<char>>, action: ActionView) -> Map<
    PathView,
    Seq<char>,
> {
    match action {
        ActionView::Remove { path } => files.remove(path),
        ActionView::CreateNew { path, mode, contents } => if files.dom().contains(path) {
            files
        } else {
            files.insert(path, contents)
        },
        ActionView::Write { path, contents, mode_after } => files.insert(path, contents),
        _ => files,
    }
}

/// The files after all of the actions, one after the other.
pub open spec fn all_performed(
    files: Map<PathView, Seq<char>>,
    actions: Seq<ActionView>,
) -> Map<PathView, Seq<char>>
    decreases actions.len(),
{
    if actions.len() == 0 {
        files
    } else {
        performed(all_performed(files, actions.drop_last()), actions.last())
    }
}

/// Whatever was in its place before, a private file ends up with its contents,
/// and no other file changes.
pub proof fn law_private_file_is_replaced(
    host: Host,
    path: PathView,
    contents: Seq<char>,
    files: Map<PathView, Seq<char>>,
)
    ensures
        all_performed(files, private_file(host, path, contents)) == files.insert(path, contents),
{
    let actions = private_file(host, path, contents);
    reveal_with_fuel(all_performed, 5);
    assert(all_performed(files, actions) =~= files.insert(path, contents));
}

/// On Unix the contents of a private file are never open to others: they are
/// written only to a file that is new and closed from the start, in a directory
/// that was closed before, under a name that was cleared before.
pub proof fn law_private_file_is_never_open(
    host: Host,
    path: PathView,
    contents: Seq<char>,
    i: int,
)
    requires
        host is Unix,
        0 <= i < private_file(host, path, contents).len(),
    ensures
        ({
            let actions = private_file(host, path, contents);
            &&& actions[i] !is Write
            &&& actions[i] matches ActionView::CreateNew { path: p, mode, contents: c } ==> {
                &&& p == path && mode == PRIVATE_FILE_MODE && c == contents
                &&& exists|j: int|
                    0 <= j < i && #[trigger] actions[j] == (ActionView::SetMode {
                        path: path.parent(),
                        mode: PRIVATE_DIR_MODE,
                    })
                &&& exists|j: int|
                    0 <= j < i && #[trigger] actions[j] == (ActionView::Remove { path })
            }
        }),
{
    let actions = private_file(host, path, contents);
    assert(actions[1] is SetMode);
    assert(actions[2] is Remove);
}

/// After a status was written, it stands in every one of its places.
pub proof fn law_status_stands_everywhere(
    host: Host,
    json: Seq<char>,
    files: Map<PathView, Seq<char>>,
    place: int,
)
    requires
        0 <= place < status_paths(host).len(),
    ensures
        all_performed(files, status_files(host, json)).dom().contains(status_paths(host)[place]),
        all_performed(files, status_files(host, json))[status_paths(host)[place]] == json,
{
    reveal_with_fuel(all_performed, 3);
    let actions = status_files(host, json);
    assert(actions.len() == status_paths(host).len());
    if actions.len() == 2 {
        assert(actions.drop_last().last() == actions[0]);
        assert(actions.drop_last().drop_last() =~= Seq::<ActionView>::empty());
    }
}

/// The directory that is closed to others is one of the client's own, never the
/// shared directory for temporary files nor the user's runtime directory.
pub proof fn law_closed_directory_is_own(host: Host)
    requires
        host is Unix,
    ensures
        ipc_dir(host).components.len() > 0,
        host matches Host::Unix { runtime_dir, uid } ==> ipc_dir(host).components.last() == (
        if runtime_dir {
            "aivpn"@
        } else {
            user_dir_name(uid)
        }),
        ipc_dir(host) != below_root(seq!["tmp"@]),
        token_path(host).parent() == ipc_dir(host),
        listen_path(host).parent() == ipc_dir(host),
{
    assert(listen_path(host).parent() =~= ipc_dir(host));
    let shared = below_root(seq!["tmp"@]);
    assert(shared.components.len() == 1);
}

/// Without a runtime directory, users with different ids have different tokens.
pub proof fn law_users_do_not_share_a_token(a: u32, b: u32)
    requires
        a != b,
    ensures
        token_path(Host::Unix { runtime_dir: false, uid: a }) != token_path(
            Host::Unix { runtime_dir: false, uid: b },
        ),
{
    let x = token_path(Host::Unix { runtime_dir: false, uid: a });
    let y = token_path(Host::Unix { runtime_dir: false, uid: b });
    text::lemma_number_text(a as nat, 10);
    text::lemma_number_text(b as nat, 10);
    if x == y {
        let prefix = "aivpn-"@;
        let m = text::number_text(a as nat, 10);
        let n = text::number_text(b as nat, 10);
        assert(x.components[1] == prefix + m);
        assert(y.components[1] == prefix + n);
        assert(m =~= (prefix + m).skip(prefix.len() as int));
        assert(n =~= (prefix + n).skip(prefix.len() as int));
    }
}

// ---------------------------------------------------------------------------
// What holds of the places and the actions
// ---------------------------------------------------------------------------

/// A path is shown with its base and all of its components.
pub proof fn law_path_view_shows_everything(path: FilePath, i: int)
    requires
        0 <= i < path.components@.len(),
    ensures
        path@.base == path.base,
        path@.components.len() == path.components@.len(),
        path@.components[i] == path.components@[i]@,
{
}

/// Going down a path adds one component at its end, and going up again undoes it.
pub proof fn law_down_and_up(path: PathView, name: Seq<char>)
    ensures
        path.child(name).base == path.base,
        path.child(name).components.len() == path.components.len() + 1,
        path.child(name).components.last() == name,
        path.child(name).parent() == path,
{
    assert(path.child(name).parent() =~= path);
}

/// An action is shown with all that belongs to it.
pub proof fn law_action_view_shows_everything(action: FileAction)
    ensures
        match action {
            FileAction::CreateDirAll { dir } => action@ matches ActionView::CreateDirAll { dir: d }
                && d == dir@,
            FileAction::SetMode { path, mode } => action@ matches ActionView::SetMode {
                path: p,
                mode: m,
            } && p == path@ && m == mode,
            FileAction::Remove { path } => action@ matches ActionView::Remove { path: p } && p
                == path@,
            FileAction::CreateNew { path, mode, contents } => action@
                matches ActionView::CreateNew { path: p, mode: m, contents: c } && p == path@ && m
                == mode && c == contents@,
            FileAction::Write { path, contents, mode_after } => action@
                matches ActionView::Write { path: p, contents: c, mode_after: m } && p == path@ && c
                == contents@ && m == mode_after,
        },
{
}

/// Lists are shown one for one.
pub proof fn law_lists_one_by_one(
    paths: Seq<FilePath>,
    actions: Seq<FileAction>,
    i: int,
    j: int,
)
    requires
        0 <= i < paths.len(),
        0 <= j < actions.len(),
    ensures
        path_views(paths).len() == paths.len(),
        path_views(paths)[i] == paths[i]@,
        action_views(actions).len() == actions.len(),
        action_views(actions)[j] == actions[j]@,
{
}

/// On anything but Windows the token stands in a directory of the client's: below
/// the runtime directory wherever there is one, for every user alike, and else below
/// `/tmp` in one that bears the user's id, which is zero where there are none.
pub proof fn law_token_place(uid: u32, other: u32)
    ensures
        token_path(Host::Unix { runtime_dir: true, uid }) == token_path(
            Host::Unix { runtime_dir: true, uid: other },
        ),
        token_path(Host::Unix { runtime_dir: true, uid }) == token_path(
            Host::Other { runtime_dir: true },
        ),
        token_path(Host::Unix { runtime_dir: false, uid: 0 }) == token_path(
            Host::Other { runtime_dir: false },
        ),
        ({
            let p = token_path(Host::Unix { runtime_dir: true, uid });
            &&& p.base == PathBase::RuntimeDir
            &&& p.components.len() == 2
            &&& p.components[0] == "aivpn"@
            &&& p.components[1] == "admin.token"@
        }),
        ({
            let p = token_path(Host::Unix { runtime_dir: false, uid });
            &&& p.base == PathBase::Root
            &&& p.components.len() == 3
            &&& p.components[0] == "tmp"@
            &&& p.components[1] == "aivpn-"@ + text::number_text(uid as nat, 10)
            &&& p.components[2] == "admin.token"@
        }),
{
}

/// On Windows the token stands in the client's directory below `LOCALAPPDATA`, or,
/// where that is not set, among the temporary files.
pub proof fn law_token_place_on_windows(local_app_data: bool)
    ensures
        ({
            let p = token_path(Host::Windows { local_app_data });
            if local_app_data {
                &&& p.base == PathBase::LocalAppData
                &&& p.components.len() == 2
                &&& p.components[0] == "AIVPN"@
                &&& p.components[1] == "admin.token"@
            } else {
                &&& p.base == PathBase::TempDir
                &&& p.components.len() == 1
                &&& p.components[0] == "aivpn-admin.token"@
            }
        }),
{
}

/// The address stands beside the token, everywhere: the same path but for the name
/// of the file.
pub proof fn law_listen_file_is_beside_the_token(host: Host)
    ensures
        listen_path(host).base == token_path(host).base,
        listen_path(host).components.len() == token_path(host).components.len(),
        listen_path(host).components.last() == "admin.listen"@,
        forall|i: int|
            0 <= i < token_path(host).components.len() - 1 ==> #[trigger] listen_path(
                host,
            ).components[i] == token_path(host).components[i],
        ipc_dir(host).base == token_path(host).base,
        ipc_dir(host).components == token_path(host).components.drop_last(),
{
}

/// On anything but Windows the status has the same two places, in the same order,
/// whoever the user is and whether or not there is a runtime directory.
pub proof fn law_status_places_are_fixed(a: Host, b: Host)
    requires
        a !is Windows,
        b !is Windows,
    ensures
        status_paths(a) == status_paths(b),
        status_paths(a).len() == 2,
        status_paths(a)[0].base == PathBase::Root,
        status_paths(a)[0].components.len() == 4,
        status_paths(a)[0].components[0] == "var"@,
        status_paths(a)[0].components[1] == "run"@,
        status_paths(a)[0].components[2] == "aivpn"@,
        status_paths(a)[0].components[3] == "recording.status"@,
        status_paths(a)[1].base == PathBase::Root,
        status_paths(a)[1].components.len() == 2,
        status_paths(a)[1].components[0] == "tmp"@,
        status_paths(a)[1].components[1] == "aivpn-recording.status"@,
{
}

/// On Windows the status always stands among the temporary files, last, and in front
/// of that in the client's directory below `LOCALAPPDATA` exactly if that is set.
pub proof fn law_status_places_on_windows(local_app_data: bool)
    ensures
        ({
            let paths = status_paths(Host::Windows { local_app_data });
            &&& paths.len() == (if local_app_data {
                2int
            } else {
                1
            })
            &&& paths.last().base == PathBase::TempDir
            &&& paths.last().components.len() == 1
            &&& paths.last().components[0] == "aivpn-recording.status"@
            &&& local_app_data ==> {
                &&& paths[0].base == PathBase::LocalAppData
                &&& paths[0].components.len() == 2
                &&& paths[0].components[0] == "AIVPN"@
                &&& paths[0].components[1] == "recording.status"@
            }
        }),
{
}

/// A private file is made in four steps on Unix, in this order: its directory is
/// made, then closed, then its name is cleared, then it is made closed and new with
/// its contents.
pub proof fn law_private_file_on_unix(
    runtime_dir: bool,
    uid: u32,
    path: PathView,
    contents: Seq<char>,
)
    ensures
        ({
            let steps = private_file(Host::Unix { runtime_dir, uid }, path, contents);
            &&& steps.len() == 4
            &&& steps[0] matches ActionView::CreateDirAll { dir } && dir == path.parent()
            &&& steps[1] matches ActionView::SetMode { path: p, mode } && p == path.parent() && mode
                == 0o700
            &&& steps[2] matches ActionView::Remove { path: p } && p == path
            &&& steps[3] matches ActionView::CreateNew { path: p, mode, contents: c } && p == path
                && mode == 0o600 && c == contents
        }),
{
}

/// Elsewhere it is made in three steps: its directory is made, its name cleared, and
/// its contents written.
pub proof fn law_private_file_elsewhere(host: Host, path: PathView, contents: Seq<char>)
    requires
        host !is Unix,
    ensures
        ({
            let steps = private_file(host, path, contents);
            &&& steps.len() == 3
            &&& steps[0] matches ActionView::CreateDirAll { dir } && dir == path.parent()
            &&& steps[1] matches ActionView::Remove { path: p } && p == path
            &&& steps[2] matches ActionView::Write { path: p, contents: c, mode_after } && p == path
                && c == contents && mode_after is None
        }),
{
}

/// A status is written once to each of its places, in their order, always the same
/// text, and closed to others afterwards on Unix and nowhere else.
pub proof fn law_status_is_written_to_each_place(host: Host, json: Seq<char>, i: int)
    requires
        0 <= i < status_paths(host).len(),
    ensures
        status_files(host, json).len() == status_paths(host).len(),
        status_files(host, json)[i] matches ActionView::Write { path, contents, mode_after } && path
            == status_paths(host)[i] && contents == json && mode_after == (if host is Unix {
            Some(0o600u32)
        } else {
            None
        }),
{
}

} // verus!
