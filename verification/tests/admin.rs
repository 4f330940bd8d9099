use aivpn_client::addr::SocketAddr;
use aivpn_client::admin::{
    admin_listen_candidates, bind_admin_udp, ensure_admin_token, persist_admin_listen,
    read_admin_listen, BindEvent, BindStep, ADMIN_PORT_FALLBACKS, DEFAULT_ADMIN_PORT,
};
use aivpn_client::files::{admin_listen_path, admin_token_path, FileAction, Host};
use aivpn_client::token::{read_admin_token, tokens_match};

const HOST: Host = Host::Unix { runtime_dir: true, uid: 1000 };

#[test]
fn default_candidates_scan_loopback_range() {
    let c = admin_listen_candidates(None);
    assert_eq!(c.len(), ADMIN_PORT_FALLBACKS as usize);
    assert_eq!(c[0], SocketAddr::from(([127, 0, 0, 1], DEFAULT_ADMIN_PORT)));
    assert_eq!(
        *c.last().unwrap(),
        SocketAddr::from(([127, 0, 0, 1], DEFAULT_ADMIN_PORT + ADMIN_PORT_FALLBACKS - 1))
    );
    assert_eq!(c[15].to_string(), "127.0.0.1:44316");
}

#[test]
fn explicit_candidate_is_not_scanned() {
    let pin = SocketAddr::parse("127.0.0.1:19999").unwrap();
    assert_eq!(admin_listen_candidates(Some(pin)), vec![pin]);
}

/// What the listen file holds after the actions.
fn written(actions: &[FileAction]) -> String {
    match actions.last().unwrap() {
        FileAction::CreateNew { path, mode, contents } => {
            assert_eq!(*path, admin_listen_path(&HOST));
            assert_eq!(*mode, 0o600);
            contents.clone()
        },
        other => panic!("{other:?}"),
    }
}

#[test]
fn persist_and_read_admin_listen_roundtrip() {
    let addr: SocketAddr = SocketAddr::parse("127.0.0.1:44307").unwrap();
    let actions = persist_admin_listen(&HOST, addr);
    assert_eq!(read_admin_listen(Some(&written(&actions))), addr);
}

#[test]
fn listen_file_with_white_space_is_read() {
    let addr = SocketAddr::from(([127, 0, 0, 1], 44302));
    assert_eq!(read_admin_listen(Some("127.0.0.1:44302\n")), addr);
    assert_eq!(read_admin_listen(Some("\t\u{a0}127.0.0.1:44302\u{3000}\r\n ")), addr);
}

#[test]
fn useless_listen_file_gives_the_default() {
    let default = SocketAddr::from(([127, 0, 0, 1], 44301));
    assert_eq!(read_admin_listen(None), default);
    assert_eq!(read_admin_listen(Some("")), default);
    assert_eq!(read_admin_listen(Some("nonsense")), default);
}

#[test]
fn second_instance_takes_the_next_port() {
    let mut bind = bind_admin_udp(None);
    let first = SocketAddr::from(([127, 0, 0, 1], 44301));
    let second = SocketAddr::from(([127, 0, 0, 1], 44302));
    assert_eq!(bind.step(BindEvent::Start), BindStep::Try { addr: first });
    assert_eq!(bind.step(BindEvent::InUse), BindStep::Try { addr: second });
    assert_eq!(
        bind.step(BindEvent::Bound { local: second }),
        BindStep::Listening { addr: second, fallback: true }
    );
}

#[test]
fn first_instance_takes_the_default_port() {
    let mut bind = bind_admin_udp(None);
    let first = SocketAddr::from(([127, 0, 0, 1], 44301));
    assert_eq!(bind.step(BindEvent::Start), BindStep::Try { addr: first });
    assert_eq!(
        bind.step(BindEvent::Bound { local: first }),
        BindStep::Listening { addr: first, fallback: false }
    );
}

#[test]
fn port_that_the_system_chose_is_found() {
    let pin = SocketAddr::parse("127.0.0.1:0").unwrap();
    let local = SocketAddr::from(([127, 0, 0, 1], 51234));
    let mut bind = bind_admin_udp(Some(pin));
    assert_eq!(bind.step(BindEvent::Start), BindStep::Try { addr: pin });
    match bind.step(BindEvent::Bound { local }) {
        BindStep::Listening { addr, fallback } => {
            assert!(fallback);
            let actions = persist_admin_listen(&HOST, addr);
            assert_eq!(read_admin_listen(Some(&written(&actions))), local);
        },
        other => panic!("{other:?}"),
    }
}

#[test]
fn search_ends_when_all_ports_are_in_use() {
    let mut bind = bind_admin_udp(None);
    let mut step = bind.step(BindEvent::Start);
    for i in 0..16 {
        assert_eq!(
            step,
            BindStep::Try { addr: SocketAddr::from(([127, 0, 0, 1], 44301 + i)) }
        );
        step = bind.step(BindEvent::InUse);
    }
    assert_eq!(step, BindStep::AllInUse);
}

#[test]
fn pinned_port_in_use_is_final() {
    let pin = SocketAddr::from(([127, 0, 0, 1], 19999));
    let mut bind = bind_admin_udp(Some(pin));
    assert_eq!(bind.step(BindEvent::Start), BindStep::Try { addr: pin });
    assert_eq!(bind.step(BindEvent::InUse), BindStep::AllInUse);
}

#[test]
fn other_failures_end_the_search() {
    let mut bind = bind_admin_udp(None);
    bind.step(BindEvent::Start);
    assert_eq!(bind.step(BindEvent::Failed), BindStep::Abort);
}

#[test]
fn nothing_to_try() {
    let mut bind = bind_admin_udp(None);
    bind.candidates.clear();
    assert_eq!(bind.step(BindEvent::Start), BindStep::NoneToTry);
}

#[test]
fn token_is_written_and_read_back() {
    let (token, actions) = ensure_admin_token(&HOST);
    assert_eq!(token.len(), 32);
    assert!(token.bytes().all(|b| b.is_ascii_alphanumeric()));
    let dir = admin_token_path(&HOST).parent();
    let expected = vec![
        FileAction::CreateDirAll { dir: dir.clone() },
        FileAction::SetMode { path: dir, mode: 0o700 },
        FileAction::Remove { path: admin_token_path(&HOST) },
        FileAction::CreateNew {
            path: admin_token_path(&HOST),
            mode: 0o600,
            contents: token.clone(),
        },
    ];
    assert_eq!(actions, expected);
    let read = read_admin_token(Some(&token)).unwrap();
    assert!(tokens_match(&read, &token));
}

#[test]
fn tokens_are_fresh() {
    let (a, _) = ensure_admin_token(&HOST);
    let (b, _) = ensure_admin_token(&HOST);
    assert_ne!(a, b);
    assert!(!tokens_match(&a, &b));
}
