use aivpn_client::files::{
    admin_ipc_dir, admin_listen_path, admin_token_path, private_file_actions,
    recording_status_dir, recording_status_paths, write_status, FileAction, FilePath, Host,
    PathBase,
};

fn path(base: PathBase, components: &[&str]) -> FilePath {
    FilePath { base, components: components.iter().map(|c| c.to_string()).collect() }
}

const UNIX: Host = Host::Unix { runtime_dir: false, uid: 1000 };

#[test]
fn token_path_on_each_platform() {
    assert_eq!(
        admin_token_path(&Host::Windows { local_app_data: true }),
        path(PathBase::LocalAppData, &["AIVPN", "admin.token"])
    );
    assert_eq!(
        admin_token_path(&Host::Windows { local_app_data: false }),
        path(PathBase::TempDir, &["aivpn-admin.token"])
    );
    assert_eq!(
        admin_token_path(&Host::Unix { runtime_dir: true, uid: 1000 }),
        path(PathBase::RuntimeDir, &["aivpn", "admin.token"])
    );
    assert_eq!(
        admin_token_path(&UNIX),
        path(PathBase::Root, &["tmp", "aivpn-1000", "admin.token"])
    );
    assert_eq!(
        admin_token_path(&Host::Other { runtime_dir: true }),
        path(PathBase::RuntimeDir, &["aivpn", "admin.token"])
    );
    assert_eq!(
        admin_token_path(&Host::Other { runtime_dir: false }),
        path(PathBase::Root, &["tmp", "aivpn-0", "admin.token"])
    );
}

#[test]
fn shared_directory_is_never_closed() {
    let dir = admin_ipc_dir(&Host::Unix { runtime_dir: false, uid: 0 });
    assert_eq!(dir, path(PathBase::Root, &["tmp", "aivpn-0"]));
}

#[test]
fn users_have_their_own_token() {
    let a = admin_token_path(&Host::Unix { runtime_dir: false, uid: 1000 });
    let b = admin_token_path(&Host::Unix { runtime_dir: false, uid: 4294967295 });
    assert_eq!(b, path(PathBase::Root, &["tmp", "aivpn-4294967295", "admin.token"]));
    assert_ne!(a, b);
}

#[test]
fn listen_file_stands_beside_the_token() {
    assert_eq!(
        admin_listen_path(&UNIX),
        path(PathBase::Root, &["tmp", "aivpn-1000", "admin.listen"])
    );
    assert_eq!(admin_listen_path(&UNIX).parent(), admin_token_path(&UNIX).parent());
}

#[test]
fn status_paths_on_each_platform() {
    let unix = vec![
        path(PathBase::Root, &["var", "run", "aivpn", "recording.status"]),
        path(PathBase::Root, &["tmp", "aivpn-recording.status"]),
    ];
    assert_eq!(recording_status_paths(&UNIX), unix);
    assert_eq!(recording_status_paths(&Host::Other { runtime_dir: true }), unix);
    assert_eq!(
        recording_status_paths(&Host::Windows { local_app_data: true }),
        vec![
            path(PathBase::LocalAppData, &["AIVPN", "recording.status"]),
            path(PathBase::TempDir, &["aivpn-recording.status"]),
        ]
    );
    assert_eq!(
        recording_status_paths(&Host::Windows { local_app_data: false }),
        vec![path(PathBase::TempDir, &["aivpn-recording.status"])]
    );
}

#[test]
fn status_directory_is_made_on_windows_only() {
    assert_eq!(
        recording_status_dir(&Host::Windows { local_app_data: true }),
        Some(path(PathBase::LocalAppData, &["AIVPN"]))
    );
    assert_eq!(recording_status_dir(&Host::Windows { local_app_data: false }), None);
    assert_eq!(recording_status_dir(&UNIX), None);
}

#[test]
fn private_file_replaces_what_is_there() {
    let place = || path(PathBase::RuntimeDir, &["aivpn", "secret"]);
    let dir = || path(PathBase::RuntimeDir, &["aivpn"]);
    assert_eq!(
        private_file_actions(&UNIX, place(), "x"),
        vec![
            FileAction::CreateDirAll { dir: dir() },
            FileAction::SetMode { path: dir(), mode: 0o700 },
            FileAction::Remove { path: place() },
            FileAction::CreateNew { path: place(), mode: 0o600, contents: "x".to_string() },
        ]
    );
    assert_eq!(
        private_file_actions(&Host::Other { runtime_dir: true }, place(), "x"),
        vec![
            FileAction::CreateDirAll { dir: dir() },
            FileAction::Remove { path: place() },
            FileAction::Write { path: place(), contents: "x".to_string(), mode_after: None },
        ]
    );
}

#[test]
fn status_is_written_everywhere() {
    assert_eq!(
        write_status(&UNIX, "{}"),
        vec![
            FileAction::Write {
                path: path(PathBase::Root, &["var", "run", "aivpn", "recording.status"]),
                contents: "{}".to_string(),
                mode_after: Some(0o600),
            },
            FileAction::Write {
                path: path(PathBase::Root, &["tmp", "aivpn-recording.status"]),
                contents: "{}".to_string(),
                mode_after: Some(0o600),
            },
        ]
    );
    assert_eq!(
        write_status(&Host::Windows { local_app_data: false }, "{}"),
        vec![FileAction::Write {
            path: path(PathBase::TempDir, &["aivpn-recording.status"]),
            contents: "{}".to_string(),
            mode_after: None,
        }]
    );
}
