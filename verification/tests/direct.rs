use vs_vpn::client::SocksAction;
use vs_vpn::crypto::{derive_session_keys, generate_psk, RelayAction, KEY_LEN, RELAY_BUF};
use vs_vpn::direct::client::{
    handle_socks_client, rejected_message, ClientAction, ClientState,
};
use vs_vpn::direct::crypto::{
    read_encrypted_frame, relay_encrypted_to_plain, relay_plain_to_encrypted,
    write_encrypted_frame, MAX_PLAINTEXT,
};
use vs_vpn::direct::server::{handle_client, ServerSession, SessionAction, SessionEvent};
use vs_vpn::direct::tunnel::{Relay, Tunnel, TunnelInner};
use vs_vpn::frame::{FrameError, FrameRead};
use vs_vpn::protocol::encode_header;

type Key = [u8; KEY_LEN];

fn keys() -> (Key, Key) {
    derive_session_keys(&generate_psk(), &[3; KEY_LEN], &[4; KEY_LEN]).unwrap()
}

fn frame(r: FrameRead) -> Vec<u8> {
    match r {
        FrameRead::Frame(data) => data,
        other => panic!("{other:?}"),
    }
}

#[test]
fn direct_frame_on_the_wire() {
    let key = [0x42; KEY_LEN];
    let mut nonce = 258;
    let wire = write_encrypted_frame(b"ping", &key, &mut nonce).unwrap();
    assert_eq!(
        hex::encode(&wire),
        "00200201000000000000000000001ccae041013baa882f33c5bb54ea33b6de0707ab"
    );
    assert_eq!(nonce, 259);
    assert_eq!(frame(read_encrypted_frame(&wire, false, &key).unwrap()), b"ping");
}

#[test]
fn direct_frames_need_no_count() {
    let key = [1; KEY_LEN];
    let mut nonce = 0;
    let a = write_encrypted_frame(b"a", &key, &mut nonce).unwrap();
    let b = write_encrypted_frame(b"", &key, &mut nonce).unwrap();
    assert_eq!(frame(read_encrypted_frame(&b, false, &key).unwrap()), b"");
    assert_eq!(frame(read_encrypted_frame(&a, true, &key).unwrap()), b"a");
}

#[test]
fn direct_frame_errors() {
    let key = [1; KEY_LEN];
    let mut nonce = 0;
    let e = write_encrypted_frame(&vec![0; MAX_PLAINTEXT + 1], &key, &mut nonce).unwrap_err();
    assert_eq!(e.message(), "plaintext too large: 65508 bytes (max 65507)");
    assert_eq!(nonce, 0);
    let e = read_encrypted_frame(&[0, 27], false, &key).unwrap_err();
    assert_eq!(e.message(), "frame too short: 27 bytes");
    let mut wire = write_encrypted_frame(b"x", &key, &mut nonce).unwrap();
    wire[20] ^= 1;
    let e = read_encrypted_frame(&wire, false, &key).unwrap_err();
    assert_eq!(e.message(), "decryption error: aead::Error");
    assert!(matches!(read_encrypted_frame(&wire[..5], false, &key), Ok(FrameRead::Need(26))));
    assert_eq!(
        read_encrypted_frame(&wire[..5], true, &key).unwrap_err(),
        FrameError::UnexpectedEof
    );
    assert!(matches!(read_encrypted_frame(&[], true, &key), Ok(FrameRead::End)));
    assert!(matches!(read_encrypted_frame(&[], false, &key), Ok(FrameRead::Need(2))));
}

#[test]
fn direct_relay() {
    let key = [1; KEY_LEN];
    let mut nonce = 1;
    let chunk = vec![8; RELAY_BUF];
    let wire = relay_plain_to_encrypted(&chunk, &key, &mut nonce).unwrap().unwrap();
    assert_eq!(nonce, 2);
    assert!(relay_plain_to_encrypted(&[], &key, &mut nonce).unwrap().is_none());
    match relay_encrypted_to_plain(&wire, false, &key).unwrap() {
        RelayAction::Write(data) => assert_eq!(data, chunk),
        other => panic!("{other:?}"),
    }
    assert!(matches!(relay_encrypted_to_plain(&[], true, &key), Ok(RelayAction::Finish)));
    assert!(matches!(relay_encrypted_to_plain(&[0], false, &key), Ok(RelayAction::Read(1))));
}

#[test]
fn direct_tunnel_ends() {
    for keys in [None, Some(keys())] {
        let mut client = Tunnel::new(keys, true);
        let mut server = Tunnel::new(keys, false);
        for i in 0..3u8 {
            let wire = client.send_frame(&[i, 1]).unwrap();
            assert_eq!(frame(server.recv_frame(&wire, false).unwrap()), [i, 1]);
            let wire = server.send_frame(&[i]).unwrap();
            assert_eq!(frame(client.recv_frame(&wire, false).unwrap()), [i]);
        }
        let out = client.relay_bidirectional();
        let back = server.relay_bidirectional();
        match (out, back, keys) {
            (Relay::Plain, Relay::Plain, None) => {}
            (Relay::Encrypted(out, _), Relay::Encrypted(_, key), Some((ck, _))) => {
                assert_eq!(out.key, ck);
                assert_eq!(out.nonce, 3);
                assert_eq!(key, ck);
            }
            other => panic!("{other:?}"),
        }
    }
    let mut tunnel = Tunnel::new(Some(keys()), true);
    assert!(tunnel.send_frame(&vec![0; MAX_PLAINTEXT + 1]).is_err());
    assert!(matches!(tunnel.inner, TunnelInner::Encrypted(t) if t.c_nonce == 0));
}

#[test]
fn direct_server_reads_a_bare_header() {
    let header = encode_header("example.com", 443);
    let mut session = ServerSession::new(None);
    let mut received = Vec::new();
    let mut need = 1;
    let mut at = 0;
    let target = loop {
        received.extend_from_slice(&header[at..at + need]);
        at += need;
        match handle_client(&mut session, SessionEvent::Received(received.clone(), false)) {
            SessionAction::Read(n) => need = n,
            SessionAction::Connect(target) => break target,
            other => panic!("{other:?}"),
        }
    };
    assert_eq!(at, header.len());
    assert_eq!(target, "example.com:443");
}

#[test]
fn direct_server_target_unreachable_plain() {
    let mut session = ServerSession::new(None);
    let header = encode_header("127.0.0.1", 1);
    match handle_client(&mut session, SessionEvent::Received(header, false)) {
        SessionAction::Connect(target) => assert_eq!(target, "127.0.0.1:1"),
        other => panic!("{other:?}"),
    }
    match handle_client(&mut session, SessionEvent::Connected(false)) {
        SessionAction::Refuse(status) => assert_eq!(status, [0x05]),
        other => panic!("{other:?}"),
    }
    match handle_client(&mut session, SessionEvent::Connected(true)) {
        SessionAction::Relay(status) => assert_eq!(status, [0x00]),
        other => panic!("{other:?}"),
    }
}

#[test]
fn direct_server_encrypted() {
    let (ck, sk) = keys();
    for (reached, status) in [(true, 0x00), (false, 0x05)] {
        let mut session = ServerSession::new(Some((ck, sk)));
        let header = encode_header("127.0.0.1", 7);
        let wire = write_encrypted_frame(&header, &ck, &mut 0).unwrap();
        match handle_client(&mut session, SessionEvent::Received(wire[..2].to_vec(), false)) {
            SessionAction::Read(n) => assert_eq!(n, wire.len() - 2),
            other => panic!("{other:?}"),
        }
        match handle_client(&mut session, SessionEvent::Received(wire, false)) {
            SessionAction::Connect(target) => assert_eq!(target, "127.0.0.1:7"),
            other => panic!("{other:?}"),
        }
        let wire = match handle_client(&mut session, SessionEvent::Connected(reached)) {
            SessionAction::Relay(wire) if reached => wire,
            SessionAction::Refuse(wire) if !reached => wire,
            other => panic!("{other:?}"),
        };
        assert_eq!(frame(read_encrypted_frame(&wire, false, &sk).unwrap()), [status]);
        assert_eq!(session.s_nonce, 1);
        match session.relay() {
            Relay::Encrypted(out, back) => {
                assert_eq!((out.key, out.nonce), (sk, 1));
                assert_eq!(back, ck);
            }
            other => panic!("{other:?}"),
        }
    }
    assert!(matches!(ServerSession::new(None).relay(), Relay::Plain));
}

#[test]
fn direct_server_errors() {
    let fail = |keys, received: Vec<u8>, at_end| {
        let mut session = ServerSession::new(keys);
        match handle_client(&mut session, SessionEvent::Received(received, at_end)) {
            SessionAction::Fail(e) => e.message(),
            other => panic!("{other:?}"),
        }
    };
    let (ck, sk) = keys();
    assert_eq!(fail(None, vec![2], false), "unsupported address type: 0x02");
    assert_eq!(fail(None, vec![], true), "early eof");
    assert_eq!(fail(None, vec![1, 10], true), "early eof");
    assert_eq!(
        fail(Some((ck, sk)), vec![], true),
        "client closed connection before tunnel header"
    );
    assert_eq!(fail(Some((ck, sk)), vec![0, 1], false), "frame too short: 1 bytes");
    let wire = write_encrypted_frame(&[], &ck, &mut 0).unwrap();
    assert_eq!(fail(Some((ck, sk)), wire, false), "empty header");
}

#[test]
fn direct_client_accepts_every_method() {
    let stream = [5, 1, 2, 5, 1, 0, 1, 10, 0, 0, 1, 0, 80];
    let mut state = ClientState::new();
    let (mut at, mut need) = (0, 2);
    let mut written = Vec::new();
    let target = loop {
        let (next, action) = handle_socks_client(state, &stream[at..at + need]);
        state = next;
        at += need;
        match action {
            ClientAction::Talk(SocksAction::Read(n)) => need = n,
            ClientAction::Talk(SocksAction::Reply(out, n)) => {
                written.extend(out);
                need = n;
            }
            ClientAction::Talk(SocksAction::Open(target)) => break target,
            other => panic!("{other:?}"),
        }
    };
    assert_eq!(written, [5, 0]);
    assert_eq!(target.header, [1, 10, 0, 0, 1, 0, 80]);

    let (state, action) = handle_socks_client(state, &[0x00]);
    assert!(matches!(state, ClientState::Closed));
    match action {
        ClientAction::Relay(reply) => assert_eq!(reply, [5, 0, 0, 1, 0, 0, 0, 0, 0, 0]),
        other => panic!("{other:?}"),
    }
}

#[test]
fn direct_client_passes_the_status_on() {
    for (status, code) in [(1, 1), (2, 2), (3, 3), (4, 4), (5, 5), (9, 1)] {
        match handle_socks_client(ClientState::Status, &[status]).1 {
            ClientAction::Refuse(reply, s) => {
                assert_eq!(reply, [5, code, 0, 1, 0, 0, 0, 0, 0, 0]);
                assert_eq!(s, status);
            }
            other => panic!("{other:?}"),
        }
    }
    assert_eq!(rejected_message(5), "server rejected: status 0x05");
}

#[test]
fn direct_stream_that_is_cut_off() {
    let key = [7; KEY_LEN];
    let messages: [&[u8]; 3] = [b"one", b"", b"three"];
    let mut nonce = 0;
    let mut stream = Vec::new();
    for m in messages {
        stream.extend(write_encrypted_frame(m, &key, &mut nonce).unwrap());
    }
    for cut in 0..=stream.len() {
        let mut rest = &stream[..cut];
        let mut got = 0;
        while let Ok(FrameRead::Frame(p)) = read_encrypted_frame(rest, true, &key) {
            assert_eq!(p, messages[got]);
            rest = &rest[2 + 12 + p.len() + 16..];
            got += 1;
        }
        assert_eq!(got == 3, cut == stream.len());
    }
}
