use vs_vpn::client::{
    choose_tunnel, handle_socks_client, run_tunnel_client, send_socks_reply, ClientAction,
    ClientError, SocksAction, SocksSession, Target, TunnelMode,
};
use vs_vpn::crypto::{
    derive_session_keys, generate_psk, read_encrypted_frame, relay_encrypted_to_plain,
    relay_plain_to_encrypted, secure_handshake, write_encrypted_frame, Handshake, HandshakeAction,
    RelayAction, KEY_LEN,
};
use vs_vpn::encrypted::EncryptedTunnel;
use vs_vpn::frame::FrameRead;
use vs_vpn::plain::PlainTunnel;
use vs_vpn::protocol::{
    encode_address, encode_header, parse_header, AddressType, SocksReply, SOCKS_VERSION,
};
use vs_vpn::server::{run_tunnel_server, ServerAction, ServerEvent};

fn frame(r: FrameRead) -> Vec<u8> {
    match r {
        FrameRead::Frame(data) => data,
        other => panic!("{other:?}"),
    }
}

fn header(addr: &str, port: u16) -> (AddressType, Vec<u8>) {
    let (atyp, addr_bytes) = encode_address(addr);
    let mut header = Vec::with_capacity(1 + addr_bytes.len() + 2);
    header.push(atyp.to_u8());
    header.extend_from_slice(&addr_bytes);
    header.extend_from_slice(&port.to_be_bytes());
    (atyp, header)
}

/// How a conversation ended.
#[derive(Debug)]
enum Ended {
    Waiting,
    Failed(ClientError),
    Opened(Target),
}

/// Runs a conversation over a stream, and gives what was written and how it
/// ended.
fn talk(stream: &[u8], any_method: bool) -> (Vec<u8>, Ended) {
    let mut session = SocksSession::new(any_method);
    let mut written = Vec::new();
    let (mut at, mut need) = (0, 2);
    loop {
        if stream.len() - at < need {
            return (written, Ended::Waiting);
        }
        let (next, action) = handle_socks_client(session, &stream[at..at + need]);
        session = next;
        at += need;
        match action {
            SocksAction::Read(n) => need = n,
            SocksAction::Reply(out, n) => {
                written.extend(out);
                need = n;
            }
            SocksAction::Refuse(out, e) => {
                written.extend(out);
                return (written, Ended::Failed(e));
            }
            SocksAction::Fail(e) => return (written, Ended::Failed(e)),
            SocksAction::Open(target) => {
                assert_eq!(at, stream.len());
                return (written, Ended::Opened(target));
            }
        }
    }
}

fn opened(stream: &[u8]) -> Target {
    match talk(stream, false) {
        (written, Ended::Opened(target)) => {
            assert_eq!(written, [SOCKS_VERSION, 0x00]);
            target
        }
        other => panic!("{other:?}"),
    }
}

#[test]
fn test_tunnel_header_plain() {
    let (atyp, header) = header("example.com", 443);
    let mut client = PlainTunnel::new();
    let mut server = PlainTunnel::new();
    let wire = client.send_frame(&header);
    let got = frame(server.recv_frame(&wire, false).unwrap());
    let (s_atyp, s_addr, s_port) = parse_header(&got).unwrap();
    let wire = server.send_frame(&[0x00]);
    let status = frame(client.recv_frame(&wire, false).unwrap());
    assert_eq!(status[0], 0x00);
    assert_eq!(s_atyp, atyp);
    assert_eq!(s_addr, "example.com");
    assert_eq!(s_port, 443);
}

#[test]
fn test_tunnel_header_ipv4_plain() {
    let (_, header) = header("10.0.0.1", 8080);
    let mut client = PlainTunnel::new();
    let mut server = PlainTunnel::new();
    let wire = client.send_frame(&header);
    let got = frame(server.recv_frame(&wire, false).unwrap());
    let (s_atyp, s_addr, s_port) = parse_header(&got).unwrap();
    let wire = server.send_frame(&[0x05]);
    let status = frame(client.recv_frame(&wire, false).unwrap());
    assert_eq!(status[0], 0x05);
    assert_eq!(s_atyp, AddressType::Ipv4);
    assert_eq!(s_addr, "10.0.0.1");
    assert_eq!(s_port, 8080);
}

#[test]
fn test_tunnel_header_encrypted() {
    let psk = generate_psk();
    let (ck, sk) = derive_session_keys(&psk, &[3; KEY_LEN], &[4; KEY_LEN]).unwrap();
    let target = "10.0.0.1";
    let port: u16 = 8080;
    let (atyp, header) = header(target, port);

    let mut c_nonce: u64 = 0;
    let wire = write_encrypted_frame(&header, &ck, &mut c_nonce).unwrap();
    let plain = frame(read_encrypted_frame(&wire, false, &ck, &mut 0).unwrap());
    let (s_atyp, s_addr, s_port) = parse_header(&plain).unwrap();

    let mut s_nonce: u64 = 0;
    let wire = write_encrypted_frame(&[0x00], &sk, &mut s_nonce).unwrap();
    let plain = frame(read_encrypted_frame(&wire, false, &sk, &mut 0).unwrap());
    assert_eq!(plain[0], 0x00);
    assert_eq!(s_atyp, atyp);
    assert_eq!(s_addr, target);
    assert_eq!(s_port, port);
}

#[test]
fn test_socks5_handshake_and_connect_plain() {
    let (session, action) =
        handle_socks_client(SocksSession::new(false), &[SOCKS_VERSION, 0x01]);
    assert!(matches!(action, SocksAction::Read(1)));
    let (session, action) = handle_socks_client(session, &[0x00]);
    match action {
        SocksAction::Reply(buf, 4) => assert_eq!(buf, [SOCKS_VERSION, 0x00]),
        other => panic!("{other:?}"),
    }
    let (session, action) = handle_socks_client(session, &[SOCKS_VERSION, 0x01, 0x00, 0x01]);
    assert!(matches!(action, SocksAction::Read(4)));
    let (session, action) = handle_socks_client(session, &[127, 0, 0, 1]);
    assert!(matches!(action, SocksAction::Read(2)));
    let (_, action) = handle_socks_client(session, &[0, 80]);
    let target = match action {
        SocksAction::Open(target) => target,
        other => panic!("{other:?}"),
    };
    assert_eq!(target.target, "127.0.0.1:80");
    assert_eq!(target.header, encode_header("127.0.0.1", 80));

    match run_tunnel_client(Some(vec![0x00])) {
        ClientAction::Relay(reply) => {
            assert_eq!(reply.len(), 10);
            assert_eq!(reply[0], SOCKS_VERSION);
            assert_eq!(reply[1], 0x00);
        }
        other => panic!("{other:?}"),
    }
}

#[test]
fn test_socks5_unsupported_command() {
    let stream = [5, 1, 0, SOCKS_VERSION, 0x02, 0x00, 0x01, 127, 0, 0, 1, 0, 80];
    let (written, end) = talk(&stream, false);
    assert!(matches!(end, Ended::Failed(ClientError::UnsupportedCommand)));
    let reply = &written[2..];
    assert_eq!(reply.len(), 10);
    assert_eq!(reply[0], SOCKS_VERSION);
    assert_eq!(reply[1], 0x07);
    assert_eq!(ClientError::UnsupportedCommand.message(), "unsupported SOCKS5 command");
}

#[test]
fn conversation_without_an_acceptable_method() {
    let stream = [5, 2, 1, 2, 5, 1, 0, 1, 127, 0, 0, 1, 0, 80];
    let (written, end) = talk(&stream, false);
    assert_eq!(written, [5, 0xFF]);
    match end {
        Ended::Failed(e) => assert_eq!(
            e.message(),
            "client does not support no-authentication method"
        ),
        other => panic!("{other:?}"),
    }
    let (written, end) = talk(&[5, 0], false);
    assert_eq!(written, [5, 0xFF]);
    assert!(matches!(end, Ended::Failed(ClientError::NoAcceptableMethod)));
    assert!(matches!(talk(&stream, true).1, Ended::Opened(_)));
}

#[test]
fn conversation_with_an_unsupported_address() {
    let (written, end) = talk(&[5, 1, 0, 5, 1, 0, 2], false);
    assert_eq!(written, [5, 0]);
    match end {
        Ended::Failed(e) => assert_eq!(e.message(), "unsupported address type: 0x02"),
        other => panic!("{other:?}"),
    }
}

#[test]
fn conversation_that_waits_for_more() {
    let stream = [5, 2, 7, 0, 5, 1, 0, 3, 2, b'a', b'b', 1, 2];
    for k in 0..stream.len() {
        let (written, end) = talk(&stream[..k], false);
        assert!(matches!(end, Ended::Waiting));
        assert_eq!(written, if k < 4 { vec![] } else { vec![5, 0] });
    }
    let target = opened(&stream);
    assert_eq!(target.addr, "ab");
    assert_eq!(target.port, 0x0102);
}

#[test]
fn what_follows_a_conversation_does_not_change_it() {
    for stream in [&[5, 1, 2][..], &[5, 1, 0, 5, 3, 0, 1], &[5, 1, 0, 5, 1, 0, 9]] {
        let (written, end) = talk(stream, false);
        let mut longer = stream.to_vec();
        longer.extend([5, 1, 0, 5, 1, 0, 1]);
        let (again, other) = talk(&longer, false);
        assert_eq!(written, again);
        assert_eq!(format!("{end:?}"), format!("{other:?}"));
        assert!(matches!(end, Ended::Failed(_)));
    }
}

#[test]
fn conversation_for_every_kind_of_address() {
    let mut stream = vec![5, 1, 0, 5, 1, 0, 4];
    stream.extend([0x20, 0x01, 0x0d, 0xb8, 0, 0, 0, 0, 0, 0, 0, 0, 0, 0, 0, 1]);
    stream.extend([0, 80]);
    let target = opened(&stream);
    assert_eq!(target.target, "2001:0db8:0000:0000:0000:0000:0000:0001:80");
    assert_eq!(target.header[0], 4);

    let target = opened(&[5, 1, 0, 5, 1, 0, 3, 0, 0, 80]);
    assert_eq!(target.target, ":80");
    let target = opened(&[5, 1, 0, 5, 1, 0, 3, 7, b'1', b'.', b'2', b'.', b'3', b'.', b'4', 0, 80]);
    assert_eq!(target.header, [1, 1, 2, 3, 4, 0, 80]);
}

#[test]
fn answers_for_every_status() {
    let replies = [(1, 1), (2, 2), (3, 3), (4, 4), (5, 5), (6, 1), (255, 1)];
    for (status, code) in replies {
        match run_tunnel_client(Some(vec![status, 9])) {
            ClientAction::Refuse(reply, e) => {
                assert_eq!(reply, [5, code, 0, 1, 0, 0, 0, 0, 0, 0]);
                assert_eq!(e, ClientError::Rejected(status));
            }
            other => panic!("{other:?}"),
        }
    }
    let words = [
        (1, "server rejected: General SOCKS failure (status 0x01)"),
        (2, "server rejected: Connection not allowed by ruleset (status 0x02)"),
        (3, "server rejected: Network unreachable (status 0x03)"),
        (4, "server rejected: Host unreachable (status 0x04)"),
        (5, "server rejected: Connection refused (status 0x05)"),
        (0xAB, "server rejected: Unknown error (status 0xab)"),
    ];
    for (status, text) in words {
        assert_eq!(ClientError::Rejected(status).message(), text);
    }
    for answer in [None, Some(vec![])] {
        match run_tunnel_client(answer) {
            ClientAction::Fail(e) => {
                assert_eq!(e.message(), "server closed connection before status")
            }
            other => panic!("{other:?}"),
        }
    }
    assert_eq!(
        send_socks_reply(SocksReply::Succeeded),
        [5, 0, 0, 1, 0, 0, 0, 0, 0, 0]
    );
}

/// The action of the server on a header, which must be to connect.
fn connects(header: Vec<u8>) -> String {
    match run_tunnel_server(ServerEvent::Header(Some(header))) {
        ServerAction::Connect(target) => target,
        other => panic!("{other:?}"),
    }
}

#[test]
fn server_test_server_target_unreachable_plain() {
    let (_, header) = header("127.0.0.1", 1);
    let mut client = PlainTunnel::new();
    let mut server = PlainTunnel::new();
    let wire = client.send_frame(&header);
    let got = frame(server.recv_frame(&wire, false).unwrap());
    assert_eq!(connects(got), "127.0.0.1:1");
    let status = match run_tunnel_server(ServerEvent::Connected(false)) {
        ServerAction::Refuse(status) => status,
        other => panic!("{other:?}"),
    };
    let wire = server.send_frame(&status);
    let status_buf = frame(client.recv_frame(&wire, false).unwrap());
    assert_eq!(status_buf[0], 0x05);
}

#[test]
fn server_test_server_target_unreachable_encrypted() {
    let psk = generate_psk();
    let (ck, sk) = derive_session_keys(&psk, &[3; KEY_LEN], &[4; KEY_LEN]).unwrap();
    let mut server = EncryptedTunnel::new(ck, sk, false);
    let (_, header) = header("127.0.0.1", 1);
    let mut c_nonce: u64 = 0;
    let wire = write_encrypted_frame(&header, &ck, &mut c_nonce).unwrap();
    let got = frame(server.recv_frame(&wire, false).unwrap());
    assert_eq!(connects(got), "127.0.0.1:1");
    let status = match run_tunnel_server(ServerEvent::Connected(false)) {
        ServerAction::Refuse(status) => status,
        other => panic!("{other:?}"),
    };
    let wire = server.send_frame(&status).unwrap();
    let plain = frame(read_encrypted_frame(&wire, false, &sk, &mut 0).unwrap());
    assert_eq!(plain[0], 0x05);
}

#[test]
fn server_test_server_plain_relay_to_echo() {
    let (_, header) = header("127.0.0.1", 7);
    let mut client = PlainTunnel::new();
    let mut server = PlainTunnel::new();
    let wire = client.send_frame(&header);
    let got = frame(server.recv_frame(&wire, false).unwrap());
    assert_eq!(connects(got), "127.0.0.1:7");
    let status = match run_tunnel_server(ServerEvent::Connected(true)) {
        ServerAction::Relay(status) => status,
        other => panic!("{other:?}"),
    };
    let wire = server.send_frame(&status);
    let status_buf = frame(client.recv_frame(&wire, false).unwrap());
    assert_eq!(status_buf[0], 0x00);
    server.relay_bidirectional();
    assert!(server.relaying);
}

#[test]
fn server_test_server_encrypted_handshake_and_relay() {
    let psk = generate_psk();
    let (ck, sk) = derive_session_keys(&psk, &[3; KEY_LEN], &[4; KEY_LEN]).unwrap();
    let mut server = EncryptedTunnel::new(ck, sk, false);
    let (_, header) = header("127.0.0.1", 7);
    let mut c_nonce: u64 = 0;
    let wire = write_encrypted_frame(&header, &ck, &mut c_nonce).unwrap();
    let got = frame(server.recv_frame(&wire, false).unwrap());
    assert_eq!(connects(got), "127.0.0.1:7");
    let status = match run_tunnel_server(ServerEvent::Connected(true)) {
        ServerAction::Relay(status) => status,
        other => panic!("{other:?}"),
    };
    let wire = server.send_frame(&status).unwrap();
    let mut s_nonce: u64 = 0;
    let plain = frame(read_encrypted_frame(&wire, false, &sk, &mut s_nonce).unwrap());
    assert_eq!(plain[0], 0x00);

    let (mut out, mut back) = server.relay_bidirectional();
    let wire = write_encrypted_frame(b"ping", &ck, &mut c_nonce).unwrap();
    let echoed = match relay_encrypted_to_plain(&wire, false, &back.key, &mut back.nonce).unwrap()
    {
        RelayAction::Write(data) => data,
        other => panic!("{other:?}"),
    };
    let wire = relay_plain_to_encrypted(&echoed, &out.key, &mut out.nonce).unwrap().unwrap();
    let echoed = frame(read_encrypted_frame(&wire, false, &sk, &mut s_nonce).unwrap());
    assert_eq!(echoed, b"ping");
}

#[test]
fn server_refuses_bad_headers() {
    let fail = |event| match run_tunnel_server(event) {
        ServerAction::Fail(e) => e.message(),
        other => panic!("{other:?}"),
    };
    assert_eq!(
        fail(ServerEvent::Header(None)),
        "client closed connection before tunnel header"
    );
    assert_eq!(fail(ServerEvent::Header(Some(vec![]))), "empty header");
    assert_eq!(
        fail(ServerEvent::Header(Some(vec![9]))),
        "unsupported address type: 0x09"
    );
}

#[test]
fn request_of_an_application_reaches_the_target() {
    for (request, expected) in [
        (vec![5, 1, 0, 5, 1, 0, 1, 127, 0, 0, 1, 0, 80], "127.0.0.1:80"),
        (vec![5, 1, 0, 5, 1, 0, 3, 3, b'f', b'o', b'o', 1, 0xBB], "foo:443"),
    ] {
        let target = opened(&request);
        assert_eq!(target.target, expected);
        assert_eq!(connects(target.header), expected);
    }
}

/// One side of a tunnel of either kind.
enum End {
    Plain(PlainTunnel),
    Encrypted(EncryptedTunnel),
}

impl End {
    fn pair(secret: Option<[u8; KEY_LEN]>) -> (End, End) {
        match secret {
            None => (End::Plain(PlainTunnel::new()), End::Plain(PlainTunnel::new())),
            Some(psk) => {
                let (ck, sk) = derive_session_keys(&psk, &[3; KEY_LEN], &[4; KEY_LEN]).unwrap();
                (
                    End::Encrypted(EncryptedTunnel::new(ck, sk, true)),
                    End::Encrypted(EncryptedTunnel::new(ck, sk, false)),
                )
            }
        }
    }

    fn send(&mut self, data: &[u8]) -> Vec<u8> {
        match self {
            End::Plain(t) => t.send_frame(data),
            End::Encrypted(t) => t.send_frame(data).unwrap(),
        }
    }

    fn recv(&mut self, wire: &[u8]) -> Vec<u8> {
        frame(match self {
            End::Plain(t) => t.recv_frame(wire, false).unwrap(),
            End::Encrypted(t) => t.recv_frame(wire, false).unwrap(),
        })
    }
}

/// The whole way of a request: what the application is answered, and the two
/// ends of the tunnel.
fn request(secret: Option<[u8; KEY_LEN]>, port: u16, reached: bool) -> (Vec<u8>, End, End) {
    let mut stream = vec![5, 1, 0, 5, 1, 0, 1, 127, 0, 0, 1];
    stream.extend(port.to_be_bytes());
    let target = opened(&stream);
    let (mut near, mut far) = End::pair(secret);
    let header = far.recv(&near.send(&target.header));
    assert_eq!(connects(header), format!("127.0.0.1:{port}"));
    let status = match run_tunnel_server(ServerEvent::Connected(reached)) {
        ServerAction::Relay(status) if reached => status,
        ServerAction::Refuse(status) if !reached => status,
        other => panic!("{other:?}"),
    };
    let answer = near.recv(&far.send(&status));
    let reply = match run_tunnel_client(Some(answer)) {
        ClientAction::Relay(reply) if reached => reply,
        ClientAction::Refuse(reply, _) if !reached => reply,
        other => panic!("{other:?}"),
    };
    (reply, near, far)
}

/// Sends data into one end of an encrypted relay, and gives what comes out of
/// the other.
fn relayed(from: &mut EncryptedTunnel, to: &mut EncryptedTunnel, chunks: &[&[u8]]) -> Vec<u8> {
    let (mut out, _) = from.relay_bidirectional();
    let (_, mut back) = to.relay_bidirectional();
    let mut stream = Vec::new();
    for chunk in chunks {
        let wire = relay_plain_to_encrypted(chunk, &out.key, &mut out.nonce).unwrap().unwrap();
        stream.extend(wire);
    }
    let (mut at, mut end, mut data) = (0, 0, Vec::new());
    loop {
        let closed = end == stream.len();
        match relay_encrypted_to_plain(&stream[at..end], closed, &back.key, &mut back.nonce)
            .unwrap()
        {
            RelayAction::Read(n) => end += n,
            RelayAction::Write(part) => {
                data.extend(part);
                at = end;
            }
            RelayAction::Finish => return data,
        }
    }
}

#[test]
fn test_e2e_plain_echo() {
    let (reply, _, _) = request(None, 7, true);
    assert_eq!(reply[..2], [0x05, 0x00]);
}

#[test]
fn test_e2e_encrypted_echo() {
    let (reply, near, far) = request(Some(generate_psk()), 7, true);
    assert_eq!(reply[..2], [0x05, 0x00]);
    let (near, far) = match (near, far) {
        (End::Encrypted(near), End::Encrypted(far)) => (near, far),
        _ => unreachable!(),
    };
    let there = relayed(&mut near.clone(), &mut far.clone(), &[b"ping", b"pong"]);
    assert_eq!(there, b"pingpong");
    let back = relayed(&mut far.clone(), &mut near.clone(), &[&there[..4], &there[4..]]);
    assert_eq!(back, b"pingpong");
}

#[test]
fn test_e2e_plain_unreachable() {
    let (reply, _, _) = request(None, 1, false);
    assert_eq!(reply[0], 0x05);
    assert_ne!(reply[1], 0x00, "should reject unreachable target");
    assert_eq!(reply[1], 0x05);
}

#[test]
fn test_e2e_encrypted_unreachable() {
    let (reply, _, _) = request(Some(generate_psk()), 1, false);
    assert_eq!(reply[0], 0x05);
    assert_ne!(reply[1], 0x00, "should reject unreachable target");
    assert_eq!(reply[1], 0x05);
}

#[test]
fn tunnel_is_encrypted_exactly_with_a_key() {
    assert!(matches!(choose_tunnel(None), TunnelMode::Plain));
    match choose_tunnel(Some([7; KEY_LEN])) {
        TunnelMode::Encrypted(psk) => assert_eq!(psk, [7; KEY_LEN]),
        other => panic!("{other:?}"),
    }
}

#[test]
fn header_is_the_request_byte_for_byte() {
    let mut v6 = vec![5, 1, 0, 5, 1, 0, 4];
    v6.extend(1..=16);
    v6.extend([0, 80]);
    for stream in [
        vec![5, 1, 0, 5, 1, 0, 1, 10, 0, 0, 1, 1, 2],
        vec![5, 1, 0, 5, 1, 0, 3, 3, b'f', b'o', b'o', 1, 2],
        v6,
    ] {
        assert_eq!(opened(&stream).header, stream[6..]);
    }
}

/// Takes the next step of a handshake, which must be to send.
fn sends(side: &mut Handshake) -> [u8; KEY_LEN] {
    match secure_handshake(side) {
        HandshakeAction::Send(nonce) => nonce,
        other => panic!("{other:?}"),
    }
}

/// Takes the last step of a handshake.
fn finishes(side: &mut Handshake) -> ([u8; KEY_LEN], [u8; KEY_LEN]) {
    match secure_handshake(side) {
        HandshakeAction::Finish(ck, sk) => (ck, sk),
        other => panic!("{other:?}"),
    }
}

#[test]
fn handshake_then_header_status_and_relay() {
    for reached in [true, false] {
        let psk = generate_psk();
        let mut client = Handshake::new(psk, true);
        let mut server = Handshake::new(psk, false);
        assert!(matches!(secure_handshake(&mut server), HandshakeAction::Receive));
        server.receive(sends(&mut client));
        assert!(matches!(secure_handshake(&mut client), HandshakeAction::Receive));
        client.receive(sends(&mut server));
        let (cck, csk) = finishes(&mut client);
        let (sck, ssk) = finishes(&mut server);
        assert_eq!((cck, csk), (sck, ssk));
        assert_ne!(cck, csk);

        let mut near = EncryptedTunnel::new(cck, csk, true);
        let mut far = EncryptedTunnel::new(sck, ssk, false);
        let (_, header) = header("10.0.0.1", 8080);
        let wire = near.send_frame(&header).unwrap();
        let got = frame(far.recv_frame(&wire, false).unwrap());
        assert_eq!(connects(got), "10.0.0.1:8080");
        let (status, expected) = match run_tunnel_server(ServerEvent::Connected(reached)) {
            ServerAction::Relay(status) if reached => (status, 0x00),
            ServerAction::Refuse(status) if !reached => (status, 0x05),
            other => panic!("{other:?}"),
        };
        let wire = far.send_frame(&status).unwrap();
        let plain = frame(near.recv_frame(&wire, false).unwrap());
        assert_eq!(plain, [expected]);
        if reached {
            let mut echo = near;
            let mut server = far;
            let there = relayed(&mut near, &mut far, &[b"ping"]);
            assert_eq!(there, b"ping");
            assert_eq!(relayed(&mut server, &mut echo, &[&there]), b"ping");
        }
    }
}
