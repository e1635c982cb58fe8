use wmproxy::frame::{HeaderRewrite, MappingConfig, MappingMode, ProtFrame};
use wmproxy::mapping::lookup_mapping;
use wmproxy::session::{chunk_data, virtual_read_step, ClientSession, StreamAction, MAX_CHUNK};

fn tcp_mapping(name: &[u8], domain: &[u8], local: &[u8]) -> MappingConfig {
    MappingConfig {
        name: name.to_vec(),
        domain: domain.to_vec(),
        local_addr: Some(local.to_vec()),
        mode: MappingMode::Tcp,
        headers: Vec::<HeaderRewrite>::new(),
    }
}

fn proxy_mapping(name: &[u8]) -> MappingConfig {
    MappingConfig {
        name: name.to_vec(),
        domain: Vec::new(),
        local_addr: None,
        mode: MappingMode::Proxy,
        headers: Vec::<HeaderRewrite>::new(),
    }
}

fn client() -> ClientSession {
    ClientSession::new(
        vec![
            tcp_mapping(b"web", b"example.com", b"127.0.0.1:8080"),
            proxy_mapping(b"socks"),
        ],
        0,
        None,
        None,
    )
}

#[test]
fn create_with_matching_domain_dials_local_addr() {
    let mut s = client();
    let create = ProtFrame::new_create(2, Some(b"example.com".to_vec()));
    match s.on_frame(&create) {
        StreamAction::StartDial { sock_map, mapping, local_addr } => {
            assert_eq!(sock_map, 2);
            assert_eq!(mapping, 0);
            assert_eq!(local_addr, b"127.0.0.1:8080".to_vec());
        }
        _ => panic!("expected a dial"),
    }
    // the substream is now live: data for it is delivered in order
    let data = ProtFrame::new_data(2, vec![1, 2, 3]);
    match s.on_frame(&data) {
        StreamAction::Forward { sock_map } => assert_eq!(sock_map, 2),
        _ => panic!("expected delivery"),
    }
}

#[test]
fn create_matches_by_name_too() {
    let mut s = client();
    let create = ProtFrame::new_create(2, Some(b"web".to_vec()));
    match s.on_frame(&create) {
        StreamAction::StartDial { mapping, .. } => assert_eq!(mapping, 0),
        _ => panic!("expected a dial"),
    }
}

#[test]
fn create_for_proxy_mode_hands_to_proxy_engine() {
    let mut s = client();
    let create = ProtFrame::new_create(4, Some(b"socks".to_vec()));
    match s.on_frame(&create) {
        StreamAction::StartProxy { sock_map, mapping } => {
            assert_eq!(sock_map, 4);
            assert_eq!(mapping, 1);
        }
        _ => panic!("expected the proxy engine"),
    }
}

#[test]
fn create_without_mapping_replies_close() {
    let mut s = client();
    let create = ProtFrame::new_create(6, Some(b"nosuch".to_vec()));
    match s.on_frame(&create) {
        StreamAction::Reply(ProtFrame::Close(c)) => {
            assert_eq!(c.sock_map(), 6);
            assert_eq!(c.reason(), &b"no mapping".to_vec());
        }
        _ => panic!("expected a close reply"),
    }
    // and nothing was registered
    match s.on_frame(&ProtFrame::new_data(6, vec![1])) {
        StreamAction::Ignore => {}
        _ => panic!("unknown substream data must be dropped"),
    }
}

#[test]
fn last_matching_mapping_wins() {
    let mappings = vec![
        tcp_mapping(b"a", b"", b"127.0.0.1:8001"),
        tcp_mapping(b"a", b"", b"127.0.0.1:8002"),
    ];
    assert_eq!(lookup_mapping(&mappings, &b"a".to_vec()), Some(1));
    let mut s = ClientSession::new(mappings, 0, None, None);
    match s.on_frame(&ProtFrame::new_create(2, Some(b"a".to_vec()))) {
        StreamAction::StartDial { local_addr, .. } => {
            assert_eq!(local_addr, b"127.0.0.1:8002".to_vec());
        }
        _ => panic!("expected a dial"),
    }
}

#[test]
fn data_for_unknown_substream_is_dropped() {
    let mut s = client();
    match s.on_frame(&ProtFrame::new_data(12, vec![1])) {
        StreamAction::Ignore => {}
        _ => panic!("expected a silent drop"),
    }
}

#[test]
fn close_of_zero_aborts_the_tunnel() {
    let mut s = client();
    match s.on_frame(&ProtFrame::new_close_reason(0, b"unauthenticated".to_vec())) {
        StreamAction::Abort => {}
        _ => panic!("expected a tunnel abort"),
    }
}

#[test]
fn close_forwards_once_then_id_is_unknown() {
    let mut s = client();
    s.on_frame(&ProtFrame::new_create(2, Some(b"web".to_vec())));
    match s.on_frame(&ProtFrame::new_close(2)) {
        StreamAction::Forward { sock_map } => assert_eq!(sock_map, 2),
        _ => panic!("expected delivery of the close"),
    }
    match s.on_frame(&ProtFrame::new_data(2, vec![1])) {
        StreamAction::Ignore => {}
        _ => panic!("a closed substream no longer delivers"),
    }
}

#[test]
fn inbound_mapping_and_token_are_ignored() {
    let mut s = client();
    match s.on_frame(&ProtFrame::new_mapping(0, Vec::new())) {
        StreamAction::Ignore => {}
        _ => panic!("expected ignore"),
    }
    match s.on_frame(&ProtFrame::new_token(b"a".to_vec(), b"b".to_vec())) {
        StreamAction::Ignore => {}
        _ => panic!("expected ignore"),
    }
}

#[test]
fn tunnel_lost_closes_every_substream_locally() {
    let mut s = client();
    s.on_frame(&ProtFrame::new_create(2, Some(b"web".to_vec())));
    s.on_frame(&ProtFrame::new_create(4, Some(b"web".to_vec())));
    let mut lost = s.on_tunnel_lost();
    lost.sort();
    assert_eq!(lost, vec![2, 4]);
    match s.on_frame(&ProtFrame::new_data(2, vec![1])) {
        StreamAction::Ignore => {}
        _ => panic!("nothing survives a lost tunnel"),
    }
}

#[test]
fn hello_sends_token_then_mapping() {
    let s = ClientSession::new(
        vec![tcp_mapping(b"web", b"", b"127.0.0.1:8080")],
        0,
        Some(b"a".to_vec()),
        Some(b"b".to_vec()),
    );
    let hello = s.hello_frames();
    assert_eq!(hello.len(), 2);
    match &hello[0] {
        ProtFrame::Token(t) => {
            assert_eq!(t.username, b"a".to_vec());
            assert_eq!(t.password, b"b".to_vec());
        }
        _ => panic!("token must come first"),
    }
    match &hello[1] {
        ProtFrame::Mapping(m) => assert_eq!(m.mappings.len(), 1),
        _ => panic!("mapping comes second"),
    }
}

#[test]
fn hello_without_credentials_sends_only_mapping() {
    let s = client();
    let hello = s.hello_frames();
    assert_eq!(hello.len(), 1);
    assert!(matches!(hello[0], ProtFrame::Mapping(_)));
}

#[test]
fn allocated_ids_are_odd_distinct_and_skip_live() {
    let mut s = client();
    let (id1, f1) = s.deal_new_stream().unwrap();
    let (id2, _) = s.deal_new_stream().unwrap();
    assert_eq!(id1, 1);
    assert_eq!(id2, 3);
    assert_eq!(id1 % 2, 1);
    assert_eq!(id2 % 2, 1);
    match f1 {
        ProtFrame::Create(c) => {
            assert_eq!(c.sock_map(), id1);
            assert_eq!(c.domain(), &None);
        }
        _ => panic!("expected a create frame"),
    }
}

#[test]
fn allocator_skips_identifiers_still_live() {
    let mut s = client();
    s.live = vec![3];
    s.next_id = 3;
    let (id, _) = s.deal_new_stream().unwrap();
    assert_eq!(id, 5, "3 is live and must be skipped");
}

#[test]
fn server_byte_tops_every_allocated_id() {
    let mut s = ClientSession::new(Vec::new(), 0x7B, None, None);
    let (id, _) = s.deal_new_stream().unwrap();
    assert_eq!(id >> 24, 0x7B);
    assert_eq!(id & 0xFF_FFFF, 1);
}

#[test]
fn chunking_keeps_order_and_sizes() {
    let payload: Vec<u8> = (0..40000u32).map(|i| (i % 251) as u8).collect();
    let frames = chunk_data(11, &payload);
    assert_eq!(frames.len(), 3);
    let mut read_back: Vec<u8> = Vec::new();
    for f in &frames {
        match f {
            ProtFrame::Data(d) => {
                assert_eq!(d.sock_map(), 11);
                assert!(d.data().len() <= MAX_CHUNK);
            }
            _ => panic!("only data frames"),
        }
        virtual_read_step(&mut read_back, f, 11);
    }
    assert_eq!(read_back, payload, "the reader sees the write byte-exact, in order");
}

#[test]
fn bytes_of_one_substream_never_reach_another() {
    let payload: Vec<u8> = vec![1, 2, 3, 4, 5];
    let frames = chunk_data(11, &payload);
    let mut other: Vec<u8> = Vec::new();
    for f in &frames {
        virtual_read_step(&mut other, f, 13);
    }
    assert!(other.is_empty(), "substream 13 reads nothing of substream 11");
}

#[test]
fn interleaved_substreams_reassemble_independently() {
    let pa: Vec<u8> = vec![10; 20000];
    let pb: Vec<u8> = vec![20; 20000];
    let fa = chunk_data(1, &pa);
    let fb = chunk_data(3, &pb);
    // interleave the two substreams' frames on one tunnel
    let mut trace: Vec<&ProtFrame> = Vec::new();
    for (x, y) in fa.iter().zip(fb.iter()) {
        trace.push(x);
        trace.push(y);
    }
    let mut ra: Vec<u8> = Vec::new();
    let mut rb: Vec<u8> = Vec::new();
    for f in trace {
        virtual_read_step(&mut ra, f, 1);
        virtual_read_step(&mut rb, f, 3);
    }
    assert_eq!(ra, pa);
    assert_eq!(rb, pb);
}

#[test]
fn multiple_writes_concatenate_in_order() {
    let writes: Vec<Vec<u8>> = vec![vec![1; 10], vec![2; 20000], vec![3; 5]];
    let mut read_back: Vec<u8> = Vec::new();
    for w in &writes {
        for f in chunk_data(7, w) {
            virtual_read_step(&mut read_back, &f, 7);
        }
    }
    assert_eq!(read_back, writes.concat());
}

#[test]
fn an_empty_write_sends_no_frames() {
    assert!(chunk_data(7, &Vec::new()).is_empty());
}

#[test]
fn full_queue_forces_close_for_data_only() {
    let mut s = client();
    s.on_frame(&ProtFrame::new_create(2, Some(b"web".to_vec())));
    // a Data frame dropped on a full inbound queue forces the substream closed
    let dropped = ProtFrame::new_data(2, vec![1, 2, 3]);
    match s.on_delivery_failure(&dropped) {
        Some(ProtFrame::Close(c)) => assert_eq!(c.sock_map(), 2),
        _ => panic!("a dropped data frame must force a close"),
    }
    match s.on_frame(&ProtFrame::new_data(2, vec![4])) {
        StreamAction::Ignore => {}
        _ => panic!("the substream is gone after the forced close"),
    }
    // a dropped Close is idempotent: nothing is forced
    s.on_frame(&ProtFrame::new_create(4, Some(b"web".to_vec())));
    assert!(s.on_delivery_failure(&ProtFrame::new_close(4)).is_none());
}
