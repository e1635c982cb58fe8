use wmproxy::codec::{decode_frame, ProtFlag, ProtFrameHeader, ProtKind};
use wmproxy::frame::{
    HeaderRewrite, MappingConfig, MappingMode, ProtData, ProtFrame, ProxyError,
};

fn sample_mapping() -> MappingConfig {
    MappingConfig {
        name: b"web".to_vec(),
        domain: b"example.com".to_vec(),
        local_addr: Some(b"127.0.0.1:8080".to_vec()),
        mode: MappingMode::Tcp,
        headers: vec![HeaderRewrite { key: b"x-real-ip".to_vec(), value: b"{client_ip}".to_vec() }],
    }
}

fn assert_mapping_eq(a: &MappingConfig, b: &MappingConfig) {
    assert_eq!(a.name, b.name);
    assert_eq!(a.domain, b.domain);
    assert_eq!(a.local_addr, b.local_addr);
    assert_eq!(a.mode, b.mode);
    assert_eq!(a.headers.len(), b.headers.len());
    for (x, y) in a.headers.iter().zip(b.headers.iter()) {
        assert_eq!(x.key, y.key);
        assert_eq!(x.value, y.value);
    }
}

#[test]
fn data_frame_round_trips() {
    let mut buf: Vec<u8> = Vec::new();
    let n = ProtFrame::new_data(7, vec![1, 2, 3, 4, 5]).encode(&mut buf).unwrap();
    assert_eq!(n, buf.len());
    let (frame, consumed) = decode_frame(&buf).unwrap().unwrap();
    assert_eq!(consumed, n);
    match frame {
        ProtFrame::Data(d) => {
            assert_eq!(d.sock_map(), 7);
            assert_eq!(d.data(), &vec![1, 2, 3, 4, 5]);
        }
        _ => panic!("wrong kind"),
    }
}

#[test]
fn data_frame_exact_wire_bytes() {
    let mut buf: Vec<u8> = Vec::new();
    ProtFrame::new_data(0x01020304, vec![0xAA]).encode(&mut buf).unwrap();
    assert_eq!(buf, vec![0u8, 0, 0, 0, 1, 1, 2, 3, 4, 0xAA]);
}

#[test]
fn token_frame_round_trips() {
    let mut buf: Vec<u8> = Vec::new();
    ProtFrame::new_token(b"a".to_vec(), b"b".to_vec()).encode(&mut buf).unwrap();
    let (frame, _) = decode_frame(&buf).unwrap().unwrap();
    match frame {
        ProtFrame::Token(t) => {
            assert_eq!(t.username, b"a".to_vec());
            assert_eq!(t.password, b"b".to_vec());
            assert_eq!(t.sock_map, 0);
        }
        _ => panic!("wrong kind"),
    }
}

#[test]
fn mapping_frame_round_trips() {
    let proxy_entry = MappingConfig {
        name: b"socks".to_vec(),
        domain: b"".to_vec(),
        local_addr: None,
        mode: MappingMode::Proxy,
        headers: vec![],
    };
    let mut buf: Vec<u8> = Vec::new();
    ProtFrame::new_mapping(0, vec![sample_mapping(), proxy_entry.duplicate()])
        .encode(&mut buf)
        .unwrap();
    let (frame, consumed) = decode_frame(&buf).unwrap().unwrap();
    assert_eq!(consumed, buf.len());
    match frame {
        ProtFrame::Mapping(m) => {
            assert_eq!(m.mappings.len(), 2);
            assert_mapping_eq(&m.mappings[0], &sample_mapping());
            assert_mapping_eq(&m.mappings[1], &proxy_entry);
        }
        _ => panic!("wrong kind"),
    }
}

#[test]
fn create_frame_round_trips_with_and_without_domain() {
    for domain in [Some(b"web".to_vec()), None] {
        let mut buf: Vec<u8> = Vec::new();
        ProtFrame::new_create(9, domain.clone()).encode(&mut buf).unwrap();
        let (frame, _) = decode_frame(&buf).unwrap().unwrap();
        match frame {
            ProtFrame::Create(c) => {
                assert_eq!(c.sock_map(), 9);
                assert_eq!(c.domain(), &domain);
            }
            _ => panic!("wrong kind"),
        }
    }
}

#[test]
fn close_frame_round_trips_with_reason() {
    let mut buf: Vec<u8> = Vec::new();
    ProtFrame::new_close_reason(0, b"unauthenticated".to_vec()).encode(&mut buf).unwrap();
    let (frame, _) = decode_frame(&buf).unwrap().unwrap();
    match frame {
        ProtFrame::Close(c) => {
            assert_eq!(c.sock_map(), 0);
            assert_eq!(c.reason(), &b"unauthenticated".to_vec());
        }
        _ => panic!("wrong kind"),
    }
}

#[test]
fn truncated_prefixes_need_more_without_consuming() {
    let mut buf: Vec<u8> = Vec::new();
    ProtFrame::new_data(3, vec![9, 8, 7]).encode(&mut buf).unwrap();
    for cut in 0..buf.len() {
        let prefix: Vec<u8> = buf[..cut].to_vec();
        assert!(decode_frame(&prefix).unwrap().is_none(), "cut at {cut}");
        assert_eq!(prefix.len(), cut, "decode must not consume");
    }
}

#[test]
fn decode_leaves_trailing_bytes() {
    let mut buf: Vec<u8> = Vec::new();
    let n = ProtFrame::new_data(3, vec![9]).encode(&mut buf).unwrap();
    buf.extend_from_slice(&[0xDE, 0xAD]);
    let (_, consumed) = decode_frame(&buf).unwrap().unwrap();
    assert_eq!(consumed, n);
}

#[test]
fn malformed_kind_byte_fails_the_tunnel() {
    let mut buf: Vec<u8> = Vec::new();
    ProtFrame::new_data(3, vec![9]).encode(&mut buf).unwrap();
    buf[0] = 9;
    assert_eq!(decode_frame(&buf).unwrap_err(), ProxyError::ProtocolViolation);
}

#[test]
fn data_payload_length_bound() {
    let max = (1usize << 24) - 1;
    let mut buf: Vec<u8> = Vec::new();
    let n = ProtFrame::new_data(1, vec![0x5A; max]).encode(&mut buf).unwrap();
    assert_eq!(n, 9 + max);
    let (frame, consumed) = decode_frame(&buf).unwrap().unwrap();
    assert_eq!(consumed, n);
    match frame {
        ProtFrame::Data(d) => {
            assert_eq!(d.data().len(), max);
            assert!(d.data().iter().all(|&b| b == 0x5A));
        }
        _ => panic!("wrong kind"),
    }

    let mut buf2: Vec<u8> = vec![0xEE];
    let err = ProtFrame::new_data(1, vec![0; max + 1]).encode(&mut buf2).unwrap_err();
    assert_eq!(err, ProxyError::TooLarge);
    assert_eq!(buf2, vec![0xEE], "a failed encode leaves the buffer unchanged");
}

#[test]
fn oversized_text_is_refused() {
    let mut buf: Vec<u8> = Vec::new();
    let err = ProtFrame::new_token(vec![b'u'; 0x10000], b"p".to_vec())
        .encode(&mut buf)
        .unwrap_err();
    assert_eq!(err, ProxyError::TooLarge);
    assert!(buf.is_empty());
}

#[test]
fn header_encodes_nine_bytes() {
    let mut head = ProtFrameHeader::new(ProtKind::Data, ProtFlag::zero(), 0x0A0B0C0D);
    head.length = 0x112233;
    let mut buf: Vec<u8> = Vec::new();
    let n = head.encode(&mut buf).unwrap();
    assert_eq!(n, 9);
    assert_eq!(buf, vec![0u8, 0, 0x11, 0x22, 0x33, 0x0A, 0x0B, 0x0C, 0x0D]);
}

#[test]
fn header_refuses_oversized_length() {
    let mut head = ProtFrameHeader::new(ProtKind::Close, ProtFlag::zero(), 1);
    head.length = 1 << 24;
    let mut buf: Vec<u8> = Vec::new();
    assert_eq!(head.encode(&mut buf).unwrap_err(), ProxyError::TooLarge);
}

#[test]
fn prot_data_parse_keeps_header_id_and_payload() {
    let header = ProtFrameHeader::new(ProtKind::Data, ProtFlag::zero(), 42);
    let data = ProtData::parse(header, vec![1, 2, 3]).unwrap();
    assert_eq!(data.sock_map(), 42);
    assert_eq!(data.data(), &vec![1, 2, 3]);

    let mut buf: Vec<u8> = Vec::new();
    ProtData::new(42, vec![1, 2, 3]).encode(&mut buf).unwrap();
    let (frame, _) = decode_frame(&buf).unwrap().unwrap();
    match frame {
        ProtFrame::Data(d) => assert_eq!(d.sock_map(), 42),
        _ => panic!("wrong kind"),
    }
}

#[test]
fn text_at_the_length_prefix_boundary_round_trips() {
    let name = vec![b'n'; 0xFFFF];
    let mut buf: Vec<u8> = Vec::new();
    ProtFrame::new_token(name.clone(), b"p".to_vec()).encode(&mut buf).unwrap();
    let (frame, _) = decode_frame(&buf).unwrap().unwrap();
    match frame {
        ProtFrame::Token(t) => assert_eq!(t.username, name),
        _ => panic!("wrong kind"),
    }
}

#[test]
fn empty_mapping_frame_round_trips() {
    let mut buf: Vec<u8> = Vec::new();
    ProtFrame::new_mapping(0, Vec::new()).encode(&mut buf).unwrap();
    let (frame, _) = decode_frame(&buf).unwrap().unwrap();
    match frame {
        ProtFrame::Mapping(m) => assert!(m.mappings.is_empty()),
        _ => panic!("wrong kind"),
    }
}
