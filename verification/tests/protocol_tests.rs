use laundry5::addr::SocksAddr;
use laundry5::error::{ConfigError, ProtocolError};
use laundry5::handshake::{
    build_connect_request, check_auth_reply, outbound_greeting, port_from_be, InboundState,
};
use laundry5::list::{Endpoint, Ip};
use laundry5::reload::{apply_reload, CurrentList};
use laundry5::select::choose_endpoint;
use std::sync::Arc;

/// Drives the inbound machine over an in-memory client byte stream,
/// returning the final state, the bytes written back to the client, and
/// how many input bytes were consumed.
fn drive(input: &[u8]) -> (InboundState, Vec<u8>, usize) {
    let mut st = InboundState::start();
    let mut written: Vec<u8> = Vec::new();
    let mut pos = 0usize;
    while !st.is_finished() {
        let n = st.needed();
        assert!(pos + n <= input.len(), "machine wants more bytes than provided");
        let chunk = input[pos..pos + n].to_vec();
        pos += n;
        let (next, reply) = st.step(chunk);
        if let Some(r) = reply {
            written.extend_from_slice(&r);
        }
        st = next;
    }
    (st, written, pos)
}

#[test]
fn test_greeting_wrong_version() {
    let (st, written, consumed) = drive(&[4, 1, 0]);
    match st {
        InboundState::Failed { err } => assert_eq!(err, ProtocolError::UnsupportedVersion),
        _ => panic!("expected failure"),
    }
    // Rejected before any request-stage byte is consumed, and no reply sent.
    assert_eq!(consumed, 2);
    assert_eq!(written, Vec::<u8>::new());
}

#[test]
fn test_greeting_no_methods() {
    let (st, written, consumed) = drive(&[5, 0]);
    match st {
        InboundState::Failed { err } => assert_eq!(err, ProtocolError::NoAuthMethods),
        _ => panic!("expected failure"),
    }
    assert_eq!(consumed, 2);
    assert_eq!(written, Vec::<u8>::new());
}

#[test]
fn test_request_unsupported_address_type() {
    // Greeting with one method, then a CONNECT with addrtype 2.
    let (st, written, _) = drive(&[5, 1, 0, 5, 1, 0, 2]);
    match st {
        InboundState::Failed { err } => {
            assert_eq!(err, ProtocolError::UnsupportedAddressType(2))
        }
        _ => panic!("expected failure"),
    }
    // The greeting reply went out before the request failed.
    assert_eq!(written, vec![5, 0]);
}

#[test]
fn test_request_unsupported_command() {
    let (st, _, _) = drive(&[5, 1, 0, 5, 2, 0, 1]);
    match st {
        InboundState::Failed { err } => assert_eq!(err, ProtocolError::UnsupportedCommand),
        _ => panic!("expected failure"),
    }
}

#[test]
fn test_request_reserved_nonzero() {
    let (st, _, _) = drive(&[5, 1, 0, 5, 1, 7, 1]);
    match st {
        InboundState::Failed { err } => assert_eq!(err, ProtocolError::ReservedFieldNonZero),
        _ => panic!("expected failure"),
    }
}

#[test]
fn test_inbound_ipv4_request() {
    let (st, written, consumed) = drive(&[5, 2, 0, 2, 5, 1, 0, 1, 203, 0, 113, 5, 0, 80]);
    match st {
        InboundState::Done { addr, port } => {
            assert_eq!(addr.atyp(), 1);
            assert_eq!(addr.addr_bytes(), &vec![203, 0, 113, 5]);
            assert_eq!(port, 80);
        }
        _ => panic!("expected done"),
    }
    assert_eq!(written, vec![5, 0]);
    assert_eq!(consumed, 14);
}

#[test]
fn test_inbound_domain_request() {
    let mut input = vec![5, 1, 0, 5, 1, 0, 3, 11];
    input.extend_from_slice(b"example.com");
    input.extend_from_slice(&[0x1f, 0x90]);
    let (st, _, _) = drive(&input);
    match st {
        InboundState::Done { addr, port } => {
            assert_eq!(addr.atyp(), 3);
            assert_eq!(addr.addr_bytes(), &b"example.com".to_vec());
            assert_eq!(port, 8080);
        }
        _ => panic!("expected done"),
    }
}

#[test]
fn test_inbound_ipv6_request() {
    let mut input = vec![5, 1, 0, 5, 1, 0, 4];
    let six: Vec<u8> = (1..=16).collect();
    input.extend_from_slice(&six);
    input.extend_from_slice(&[1, 187]);
    let (st, _, _) = drive(&input);
    match st {
        InboundState::Done { addr, port } => {
            assert_eq!(addr.atyp(), 4);
            assert_eq!(addr.addr_bytes(), &six);
            assert_eq!(port, 443);
        }
        _ => panic!("expected done"),
    }
}

#[test]
fn test_codec_round_trip() {
    for payload in [vec![203u8, 0, 113, 5], b"a".to_vec(), (1..=16).collect::<Vec<u8>>()] {
        let tag = match payload.len() {
            4 => 1,
            16 => 4,
            _ => 3,
        };
        let addr = SocksAddr::decode(tag, payload.clone()).unwrap();
        assert_eq!(addr.atyp(), tag);
        assert_eq!(addr.addr_bytes(), &payload);
    }
}

#[test]
fn test_codec_rejects_unknown_tag() {
    for tag in [0u8, 2, 5, 255] {
        let r = SocksAddr::decode(tag, Vec::new());
        assert_eq!(r.unwrap_err(), ProtocolError::UnsupportedAddressType(tag));
    }
}

#[test]
fn test_display_forms() {
    let v4 = SocksAddr::decode(1, vec![203, 0, 113, 5]).unwrap();
    assert_eq!(v4.display_string(), "203.0.113.5");
    let mut sixteen = vec![0x20, 0x01, 0x0d, 0xb8];
    sixteen.extend_from_slice(&[0; 10]);
    sixteen.extend_from_slice(&[0x00, 0x2a]);
    let v6 = SocksAddr::decode(4, sixteen).unwrap();
    assert_eq!(v6.display_string(), "[2001:0DB8:0000:0000:0000:0000:0000:002A]");
}

#[test]
fn test_display_domain_is_escaped() {
    let d = SocksAddr::decode(3, b"example.com".to_vec()).unwrap();
    assert_eq!(d.display_string(), "\"example.com\"");
    let raw = SocksAddr::decode(3, vec![0xff, 0x41]).unwrap();
    // Non-text bytes must render without failing, escaped.
    assert_eq!(raw.display_string(), "\"\\xffA\"");
}

#[test]
fn test_outbound_messages() {
    assert_eq!(outbound_greeting(), vec![5, 1, 0]);
    assert!(check_auth_reply(5, 0).is_ok());
    assert_eq!(check_auth_reply(5, 255).unwrap_err(), ProtocolError::AuthRejected);
    assert_eq!(check_auth_reply(4, 0).unwrap_err(), ProtocolError::AuthRejected);

    let addr = SocksAddr::decode(1, vec![203, 0, 113, 5]).unwrap();
    assert_eq!(build_connect_request(&addr, 80), vec![5, 1, 0, 1, 203, 0, 113, 5, 0, 80]);

    let dom = SocksAddr::decode(3, b"ab".to_vec()).unwrap();
    assert_eq!(build_connect_request(&dom, 1234), vec![5, 1, 0, 3, 2, b'a', b'b', 4, 210]);
}

#[test]
fn test_port_round_trip() {
    assert_eq!(port_from_be(0, 80), 80);
    assert_eq!(port_from_be(4, 210), 1234);
    assert_eq!(port_from_be(255, 255), 65535);
}

#[test]
fn test_select_empty_list_fails() {
    let r = choose_endpoint(&Vec::new());
    assert_eq!(r.unwrap_err(), ConfigError::NoProxiesConfigured);
}

#[test]
fn test_select_returns_member() {
    let list = vec![
        Endpoint { ip: Ip::V4(192, 0, 2, 1), port: 1 },
        Endpoint { ip: Ip::V4(192, 0, 2, 2), port: 2 },
        Endpoint { ip: Ip::V4(192, 0, 2, 3), port: 3 },
    ];
    for _ in 0..64 {
        let e = choose_endpoint(&list).unwrap();
        assert!(list.contains(&e));
    }
    let one = vec![Endpoint { ip: Ip::V6(0, 0, 0, 0, 0, 0, 0, 1), port: 9 }];
    assert_eq!(choose_endpoint(&one).unwrap(), one[0]);
}

#[test]
fn test_snapshot_survives_reload() {
    let old_list = vec![Endpoint { ip: Ip::V4(192, 0, 2, 1), port: 1 }];
    let new_list = vec![Endpoint { ip: Ip::V4(198, 51, 100, 9), port: 2 }];
    let mut cell = CurrentList::new(old_list.clone());
    // A connection admitted now holds this snapshot for its lifetime.
    let snap: Arc<Vec<Endpoint>> = cell.snapshot();
    // A reload installs a different list mid-connection.
    cell.install(Arc::new(new_list.clone()));
    // The held snapshot still shows the old endpoints, and selection
    // still draws from them; only newly admitted connections see the
    // new list.
    assert_eq!(*snap, old_list);
    assert_eq!(choose_endpoint(&snap).unwrap(), old_list[0]);
    assert_eq!(*cell.snapshot(), new_list);
}

#[test]
fn test_failed_reload_leaves_list_in_effect() {
    let old_list = vec![Endpoint { ip: Ip::V4(192, 0, 2, 1), port: 1 }];
    let mut cell = CurrentList::new(old_list.clone());
    let bad = laundry5::list::load_from_lines(&vec![b"not a proxy".to_vec()]);
    let r = apply_reload(&mut cell, bad);
    assert_eq!(r, Err(laundry5::error::LoadError::InvalidLine(0)));
    assert_eq!(*cell.snapshot(), old_list);

    let good = laundry5::list::load_from_lines(&vec![b"198.51.100.9:7".to_vec()]);
    apply_reload(&mut cell, good).unwrap();
    assert_eq!(*cell.snapshot(), vec![Endpoint { ip: Ip::V4(198, 51, 100, 9), port: 7 }]);
}

/// An in-memory upstream proxy that accepts the outbound handshake.
struct Upstream {
    inbox: Vec<u8>,
    outbox: Vec<u8>,
}

#[test]
fn test_end_to_end_relay_order() {
    // The client sends a valid greeting and a CONNECT for 203.0.113.5:80,
    // then payload bytes.
    let mut client_out = vec![5, 1, 0, 5, 1, 0, 1, 203, 0, 113, 5, 0, 80];
    let client_payload = b"GET / HTTP/1.0\r\n\r\n";
    client_out.extend_from_slice(client_payload);

    let (st, to_client, consumed) = drive(&client_out);
    let (addr, port) = match st {
        InboundState::Done { addr, port } => (addr, port),
        _ => panic!("handshake should succeed"),
    };
    assert_eq!(to_client, vec![5, 0]);

    // Outbound handshake against an upstream that accepts no-auth.
    let mut up = Upstream { inbox: Vec::new(), outbox: vec![5, 0] };
    up.inbox.extend_from_slice(&outbound_greeting());
    let (b0, b1) = (up.outbox[0], up.outbox[1]);
    check_auth_reply(b0, b1).unwrap();
    up.inbox.extend_from_slice(&build_connect_request(&addr, port));
    assert_eq!(up.inbox, vec![5, 1, 0, 5, 1, 0, 1, 203, 0, 113, 5, 0, 80]);

    // Relay: bytes the client wrote after its handshake reach the
    // upstream in order; bytes from the upstream reach the client in
    // order; nothing is truncated.
    up.inbox.clear();
    up.inbox.extend_from_slice(&client_out[consumed..]);
    assert_eq!(up.inbox, client_payload);
    let reply = b"HTTP/1.0 204 No Content\r\n\r\n";
    let mut to_client_data: Vec<u8> = Vec::new();
    to_client_data.extend_from_slice(reply);
    assert_eq!(to_client_data, reply);
}
