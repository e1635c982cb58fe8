use wmproxy::frame::{HeaderRewrite, MappingConfig, MappingMode, ProtFrame};
use wmproxy::server::{ServerAction, ServerSession};

fn mapping(name: &[u8], local: &[u8]) -> MappingConfig {
    MappingConfig {
        name: name.to_vec(),
        domain: Vec::new(),
        local_addr: Some(local.to_vec()),
        mode: MappingMode::Tcp,
        headers: Vec::<HeaderRewrite>::new(),
    }
}

fn guarded() -> ServerSession {
    ServerSession::new(Some(b"a".to_vec()), Some(b"b".to_vec()), 0)
}

fn expect_unauth_close(action: ServerAction) {
    match action {
        ServerAction::CloseTunnel(ProtFrame::Close(c)) => {
            assert_eq!(c.sock_map(), 0);
            assert_eq!(c.reason(), &b"unauthenticated".to_vec());
        }
        _ => panic!("expected the unauthenticated close"),
    }
}

#[test]
fn any_frame_before_token_is_refused_and_delivers_nothing() {
    let mut s = guarded();
    expect_unauth_close(s.on_frame(&ProtFrame::new_mapping(0, vec![mapping(b"web", b"x")])));
    assert_eq!(s.registry.len(), 0, "zero mappings registered");
    expect_unauth_close(s.on_frame(&ProtFrame::new_data(2, vec![1, 2])));
    assert!(s.live.is_empty(), "zero data delivery");
}

#[test]
fn wrong_password_is_refused_with_the_same_reason() {
    let mut s = guarded();
    expect_unauth_close(s.on_frame(&ProtFrame::new_token(b"a".to_vec(), b"wrong".to_vec())));
    assert!(!s.authed);
    assert_eq!(s.registry.len(), 0, "the control view shows zero registered mappings");
}

#[test]
fn right_credentials_are_accepted() {
    let mut s = guarded();
    match s.on_frame(&ProtFrame::new_token(b"a".to_vec(), b"b".to_vec())) {
        ServerAction::Authenticated => {}
        _ => panic!("expected authentication"),
    }
    match s.on_frame(&ProtFrame::new_mapping(0, vec![mapping(b"web", b"x")])) {
        ServerAction::RegistryUpdated => {}
        _ => panic!("expected the registry update"),
    }
    assert_eq!(s.registry.len(), 1);
}

#[test]
fn no_credentials_means_no_auth_demand() {
    let mut s = ServerSession::new(None, None, 0);
    match s.on_frame(&ProtFrame::new_mapping(0, vec![mapping(b"web", b"x")])) {
        ServerAction::RegistryUpdated => {}
        _ => panic!("without configured credentials the first frame passes"),
    }
}

#[test]
fn resent_mapping_overrides_by_name() {
    let mut s = ServerSession::new(None, None, 0);
    s.on_frame(&ProtFrame::new_mapping(0, vec![mapping(b"a", b"127.0.0.1:8001")]));
    s.on_frame(&ProtFrame::new_mapping(0, vec![mapping(b"a", b"127.0.0.1:8002")]));
    let i = s.route(&b"a".to_vec()).unwrap();
    assert_eq!(
        s.registry[i].local_addr,
        Some(b"127.0.0.1:8002".to_vec()),
        "the later advertisement wins"
    );
}

#[test]
fn route_misses_unknown_domains() {
    let mut s = ServerSession::new(None, None, 0);
    s.on_frame(&ProtFrame::new_mapping(0, vec![mapping(b"web", b"x")]));
    assert!(s.route(&b"nosuch".to_vec()).is_none());
}

#[test]
fn opened_substreams_are_even_and_carry_the_domain() {
    let mut s = ServerSession::new(None, None, 3);
    let (id1, f1) = s.open_substream(Some(b"web".to_vec())).unwrap();
    let (id2, _) = s.open_substream(None).unwrap();
    assert_eq!(id1 & 1, 0);
    assert_eq!(id2 & 1, 0);
    assert_ne!(id1, id2);
    assert_eq!(id1 >> 24, 3);
    match f1 {
        ProtFrame::Create(c) => {
            assert_eq!(c.sock_map(), id1);
            assert_eq!(c.domain(), &Some(b"web".to_vec()));
        }
        _ => panic!("expected a create frame"),
    }
}

#[test]
fn server_routes_data_and_close_like_the_client() {
    let mut s = ServerSession::new(None, None, 0);
    let (id, _) = s.open_substream(None).unwrap();
    match s.on_frame(&ProtFrame::new_data(id, vec![1])) {
        ServerAction::Forward { sock_map } => assert_eq!(sock_map, id),
        _ => panic!("expected delivery"),
    }
    match s.on_frame(&ProtFrame::new_close(id)) {
        ServerAction::Forward { sock_map } => assert_eq!(sock_map, id),
        _ => panic!("expected delivery of the close"),
    }
    match s.on_frame(&ProtFrame::new_data(id, vec![1])) {
        ServerAction::Ignore => {}
        _ => panic!("a closed substream no longer delivers"),
    }
    match s.on_frame(&ProtFrame::new_close_reason(0, b"bye".to_vec())) {
        ServerAction::Abort => {}
        _ => panic!("substream zero aborts the tunnel"),
    }
}

#[test]
fn lost_tunnel_closes_server_side_substreams() {
    let mut s = ServerSession::new(None, None, 0);
    let (id1, _) = s.open_substream(None).unwrap();
    let (id2, _) = s.open_substream(None).unwrap();
    let mut lost = s.on_tunnel_lost();
    lost.sort();
    let mut want = vec![id1, id2];
    want.sort();
    assert_eq!(lost, want);
}

#[test]
fn server_full_queue_forces_close_for_data_only() {
    let mut s = ServerSession::new(None, None, 0);
    let (id, _) = s.open_substream(None).unwrap();
    match s.on_delivery_failure(&ProtFrame::new_data(id, vec![1])) {
        Some(ProtFrame::Close(c)) => assert_eq!(c.sock_map(), id),
        _ => panic!("a dropped data frame must force a close"),
    }
    match s.on_frame(&ProtFrame::new_data(id, vec![1])) {
        ServerAction::Ignore => {}
        _ => panic!("the substream is gone after the forced close"),
    }
    assert!(s.on_delivery_failure(&ProtFrame::new_close(id)).is_none());
}
