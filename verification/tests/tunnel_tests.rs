//! One tunneled request walked through both peers' decision layers, with
//! every frame passing through the real codec.

use wmproxy::codec::decode_frame;
use wmproxy::frame::{HeaderRewrite, MappingConfig, MappingMode, ProtFrame};
use wmproxy::server::{ServerAction, ServerSession};
use wmproxy::session::{chunk_data, virtual_read_step, ClientSession, StreamAction};

fn web_mapping() -> MappingConfig {
    MappingConfig {
        name: b"web".to_vec(),
        domain: Vec::new(),
        local_addr: Some(b"127.0.0.1:8080".to_vec()),
        mode: MappingMode::Tcp,
        headers: Vec::<HeaderRewrite>::new(),
    }
}

/// Sends one frame over the wire: encode on one side, decode on the other.
fn over_wire(f: ProtFrame) -> ProtFrame {
    let mut wire: Vec<u8> = Vec::new();
    let n = f.encode(&mut wire).unwrap();
    let (out, consumed) = decode_frame(&wire).unwrap().unwrap();
    assert_eq!(consumed, n);
    out
}

#[test]
fn tcp_passthrough_decisions_end_to_end() {
    // the client registers: no credentials, one advertised mapping
    let client_cfg = vec![web_mapping()];
    let mut client = ClientSession::new(client_cfg, 0, None, None);
    let mut server = ServerSession::new(None, None, 0);

    for hello in client.hello_frames() {
        match server.on_frame(&over_wire(hello)) {
            ServerAction::RegistryUpdated => {}
            _ => panic!("the hello advertises the mapping"),
        }
    }

    // an external connection arrives for "web": the server owns the route
    let route = server.route(&b"web".to_vec());
    assert!(route.is_some());
    let (id, create) = server.open_substream(Some(b"web".to_vec())).unwrap();

    // the client receives the create and dials the mapped local address
    match client.on_frame(&over_wire(create)) {
        StreamAction::StartDial { sock_map, local_addr, .. } => {
            assert_eq!(sock_map, id);
            assert_eq!(local_addr, b"127.0.0.1:8080".to_vec());
        }
        _ => panic!("expected the local dial"),
    }

    // the local service answers; the bridge chunks the body onto the tunnel
    let body: Vec<u8> = (0..50000u32).map(|i| (i % 199) as u8).collect();
    let mut served: Vec<u8> = Vec::new();
    for frame in chunk_data(id, &body) {
        let arrived = over_wire(frame);
        match server.on_frame(&arrived) {
            ServerAction::Forward { sock_map } => assert_eq!(sock_map, id),
            _ => panic!("data for a live substream is delivered"),
        }
        virtual_read_step(&mut served, &arrived, id);
    }
    assert_eq!(served, body, "the external client reads the body byte-exact");

    // the client half closes; the server drops the substream
    match server.on_frame(&over_wire(ProtFrame::new_close(id))) {
        ServerAction::Forward { sock_map } => assert_eq!(sock_map, id),
        _ => panic!("the close is delivered"),
    }
    match server.on_frame(&over_wire(ProtFrame::new_data(id, vec![1]))) {
        ServerAction::Ignore => {}
        _ => panic!("nothing is delivered after the close"),
    }
}

#[test]
fn authenticated_tunnel_registers_only_after_token() {
    let mut client = ClientSession::new(
        vec![web_mapping()],
        0,
        Some(b"a".to_vec()),
        Some(b"b".to_vec()),
    );
    let mut server = ServerSession::new(Some(b"a".to_vec()), Some(b"b".to_vec()), 0);

    let hello = client.hello_frames();
    assert_eq!(hello.len(), 2, "token first, then the mapping");
    let mut actions: Vec<ServerAction> = Vec::new();
    for f in hello {
        actions.push(server.on_frame(&over_wire(f)));
    }
    assert!(matches!(actions[0], ServerAction::Authenticated));
    assert!(matches!(actions[1], ServerAction::RegistryUpdated));
    assert!(server.route(&b"web".to_vec()).is_some());
}
