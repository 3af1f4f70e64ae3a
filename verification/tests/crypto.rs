use vs_vpn::crypto::{
    derive_session_keys, generate_psk, handshake_step, read_encrypted_frame, relay_encrypted_to_plain,
    relay_error, relay_plain_to_encrypted, secure_handshake, write_encrypted_frame, Handshake,
    HandshakeAction, RelayAction, RelayOp, KEY_LEN, MAX_PLAINTEXT, NONCE_LEN, RELAY_BUF, TAG_LEN,
};
use vs_vpn::encrypted::{relay_ended, EncryptedConnector, EncryptedTunnel};
use vs_vpn::frame::{read_frame, write_frame, FrameError, FrameRead};
use vs_vpn::plain::{PlainConnector, PlainTunnel};

type Key = [u8; KEY_LEN];

fn frame_of(r: Result<FrameRead, FrameError>) -> Vec<u8> {
    match r.unwrap() {
        FrameRead::Frame(data) => data,
        other => panic!("{other:?}"),
    }
}

/// Lets both sides of a handshake talk until each has its keys.
fn shake(psk: Key) -> ((Key, Key), (Key, Key)) {
    let mut sides = [Handshake::new(psk, true), Handshake::new(psk, false)];
    let mut sent: [Option<Key>; 2] = [None, None];
    let mut keys: [Option<(Key, Key)>; 2] = [None, None];
    while keys[0].is_none() || keys[1].is_none() {
        for i in 0..2 {
            if keys[i].is_some() {
                continue;
            }
            match secure_handshake(&mut sides[i]) {
                HandshakeAction::Send(nonce) => sent[i] = Some(nonce),
                HandshakeAction::Receive => {
                    if let Some(nonce) = sent[1 - i] {
                        sides[i].receive(nonce);
                    }
                }
                HandshakeAction::Finish(ck, sk) => keys[i] = Some((ck, sk)),
                HandshakeAction::Fail(e) => panic!("{e:?}"),
            }
        }
    }
    (keys[0].unwrap(), keys[1].unwrap())
}

#[test]
fn test_generate_psk_length() {
    let psk = generate_psk();
    assert_eq!(psk.len(), KEY_LEN);
}

#[test]
fn test_generate_psk_random() {
    let psk1 = generate_psk();
    let psk2 = generate_psk();
    assert_ne!(psk1, psk2);
}

#[test]
fn test_derive_session_keys_different() {
    let psk = generate_psk();
    let client_nonce = [0xAAu8; KEY_LEN];
    let server_nonce = [0x55u8; KEY_LEN];
    let (ck, sk) = derive_session_keys(&psk, &client_nonce, &server_nonce).unwrap();
    assert_ne!(ck, sk);
    assert_eq!(ck.len(), KEY_LEN);
    assert_eq!(sk.len(), KEY_LEN);
}

#[test]
fn test_derive_session_keys_deterministic() {
    let psk = [0x42u8; KEY_LEN];
    let cn = [0x01u8; KEY_LEN];
    let sn = [0x02u8; KEY_LEN];
    let (ck1, sk1) = derive_session_keys(&psk, &cn, &sn).unwrap();
    let (ck2, sk2) = derive_session_keys(&psk, &cn, &sn).unwrap();
    assert_eq!(ck1, ck2);
    assert_eq!(sk1, sk2);
}

#[test]
fn session_keys_are_the_halves_of_hkdf() {
    let (ck, sk) = derive_session_keys(&[0x42; KEY_LEN], &[1; KEY_LEN], &[2; KEY_LEN]).unwrap();
    assert_eq!(
        hex::encode(ck),
        "2f616f62844fc99e6455c3b2fd4155fd65b59ceb464ef70f6800ddb7aab5be7b"
    );
    assert_eq!(
        hex::encode(sk),
        "2c52e2d09ae80ec5543f50ca7114813a1b133cf3a1a49b2c518b8729421f3143"
    );
}

#[test]
fn test_encrypt_decrypt_roundtrip() {
    let psk = generate_psk();
    let (ck, _sk) = derive_session_keys(&psk, &[0u8; KEY_LEN], &[0u8; KEY_LEN]).unwrap();
    let plaintext = b"Hello, secure tunnel!";
    let mut nonce: u64 = 0;
    let wire = write_encrypted_frame(plaintext, &ck, &mut nonce).unwrap();
    let decrypted = frame_of(read_encrypted_frame(&wire, false, &ck, &mut 0));
    assert_eq!(decrypted, plaintext);
}

#[test]
fn test_encrypt_decrypt_empty_plaintext() {
    let psk = generate_psk();
    let (ck, _sk) = derive_session_keys(&psk, &[0u8; KEY_LEN], &[0u8; KEY_LEN]).unwrap();
    let mut nonce: u64 = 0;
    let wire = write_encrypted_frame(b"", &ck, &mut nonce).unwrap();
    let decrypted = frame_of(read_encrypted_frame(&wire, false, &ck, &mut 0));
    assert!(decrypted.is_empty());
}

#[test]
fn test_multiple_frames_nonce_progression() {
    let psk = generate_psk();
    let (ck, _sk) = derive_session_keys(&psk, &[0u8; KEY_LEN], &[0u8; KEY_LEN]).unwrap();
    let messages: Vec<Vec<u8>> = (0..5).map(|i| format!("message {i}").into_bytes()).collect();

    let mut stream = Vec::new();
    let mut nonce: u64 = 0;
    for msg in &messages {
        stream.extend(write_encrypted_frame(msg, &ck, &mut nonce).unwrap());
    }
    assert_eq!(nonce, 5);

    let mut received = Vec::new();
    let mut read_nonce: u64 = 0;
    let mut rest = &stream[..];
    while let FrameRead::Frame(plain) =
        read_encrypted_frame(rest, true, &ck, &mut read_nonce).unwrap()
    {
        rest = &rest[2 + plain.len() + TAG_LEN..];
        received.push(plain);
    }
    assert_eq!(received, messages);
    assert_eq!(read_nonce, 5);
}

#[test]
fn test_secure_handshake_both_sides() {
    let psk = generate_psk();
    let ((ck_client, sk_client), (ck_server, sk_server)) = shake(psk);
    assert_eq!(ck_client, ck_server);
    assert_eq!(sk_client, sk_server);
    assert_ne!(ck_client, sk_client);
}

#[test]
fn test_read_frame_eof() {
    let key = [0u8; KEY_LEN];
    let result = read_encrypted_frame(&[], true, &key, &mut 0).unwrap();
    assert!(matches!(result, FrameRead::End));
    let result = read_encrypted_frame(&[0], true, &key, &mut 0).unwrap();
    assert!(matches!(result, FrameRead::End));
}

#[test]
fn test_write_frame_too_large() {
    let key = [0u8; KEY_LEN];
    let huge = vec![0u8; MAX_PLAINTEXT + 1];
    let mut nonce = 0;
    let result = write_encrypted_frame(&huge, &key, &mut nonce);
    assert!(result.is_err());
    assert_eq!(
        result.unwrap_err().message(),
        "plaintext too large: 65520 bytes (max 65519)"
    );
    assert_eq!(nonce, 0);
}

#[test]
fn test_read_frame_too_short() {
    let key = [0u8; KEY_LEN];
    let short_len = (TAG_LEN - 1) as u16;
    let result = read_encrypted_frame(&short_len.to_be_bytes(), false, &key, &mut 0);
    assert!(result.is_err());
    assert_eq!(result.unwrap_err().message(), "frame too short: 15 bytes");
}

#[test]
fn test_encrypt_decrypt_with_wrong_key() {
    let psk = generate_psk();
    let (ck, _sk) = derive_session_keys(&psk, &[0u8; KEY_LEN], &[0u8; KEY_LEN]).unwrap();
    let wrong_key = [0xFFu8; KEY_LEN];
    let mut nonce: u64 = 0;
    let wire = write_encrypted_frame(b"secret", &ck, &mut nonce).unwrap();
    let result = read_encrypted_frame(&wire, false, &wrong_key, &mut 0);
    assert!(result.is_err());
    assert_eq!(
        result.unwrap_err().message(),
        "decryption error (nonce=0): aead::Error"
    );
}

#[test]
fn test_secure_handshake_then_encrypted_exchange() {
    let psk = generate_psk();
    let ((cck, csk), (sck, ssk)) = shake(psk);

    let mut nonce: u64 = 0;
    let wire = write_encrypted_frame(b"ping", &cck, &mut nonce).unwrap();
    let req = frame_of(read_encrypted_frame(&wire, false, &sck, &mut 0));
    assert_eq!(req, b"ping");

    let mut nonce: u64 = 0;
    let wire = write_encrypted_frame(b"pong", &ssk, &mut nonce).unwrap();
    let reply = frame_of(read_encrypted_frame(&wire, false, &csk, &mut 0));
    assert_eq!(reply, b"pong");

    assert_eq!(cck, sck);
    assert_eq!(csk, ssk);
    assert_ne!(cck, csk);
}

#[test]
fn frame_on_the_wire() {
    let key = [0x42; KEY_LEN];
    let mut nonce = 0;
    let wire = write_encrypted_frame(b"ping", &key, &mut nonce).unwrap();
    assert_eq!(hex::encode(wire), "0014290f8a4cac015a813948c97ceafe5782c1e4928f");
    let mut nonce = 258;
    let wire = write_encrypted_frame(b"ping", &key, &mut nonce).unwrap();
    assert_eq!(hex::encode(wire), "00141ccae041013baa882f33c5bb54ea33b6de0707ab");
    assert_eq!(nonce, 259);
    assert_eq!(NONCE_LEN, 12);
}

#[test]
fn largest_frame() {
    let key = [7; KEY_LEN];
    let data = vec![9u8; MAX_PLAINTEXT];
    let wire = write_encrypted_frame(&data, &key, &mut 3).unwrap();
    assert_eq!(wire.len(), 2 + 65535);
    assert_eq!(frame_of(read_encrypted_frame(&wire, false, &key, &mut 3)), data);
}

#[test]
fn frame_under_another_nonce_is_refused() {
    let key = [7; KEY_LEN];
    let wire = write_encrypted_frame(b"x", &key, &mut 3).unwrap();
    let mut nonce = 4;
    let e = read_encrypted_frame(&wire, false, &key, &mut nonce).unwrap_err();
    assert_eq!(e, FrameError::Decryption(Some(4)));
    assert_eq!(nonce, 4);
}

#[test]
fn frame_that_arrives_in_parts() {
    let key = [7; KEY_LEN];
    let wire = write_encrypted_frame(b"abc", &key, &mut 0).unwrap();
    for k in 0..wire.len() {
        let need = if k < 2 { 2 - k } else { wire.len() - k };
        match read_encrypted_frame(&wire[..k], false, &key, &mut 0).unwrap() {
            FrameRead::Need(n) => assert_eq!(n, need),
            other => panic!("{other:?}"),
        }
        let cut = read_encrypted_frame(&wire[..k], true, &key, &mut 0);
        if k < 2 {
            assert!(matches!(cut, Ok(FrameRead::End)));
        } else {
            assert_eq!(cut.unwrap_err().message(), "early eof");
        }
    }
}

#[test]
fn words_of_the_rarer_errors() {
    assert_eq!(
        FrameError::Encryption(Some(7)).message(),
        "encryption error (nonce=7): aead::Error"
    );
    assert_eq!(FrameError::Encryption(None).message(), "encryption error: aead::Error");
    assert_eq!(FrameError::Decryption(None).message(), "decryption error: aead::Error");
    assert_eq!(
        FrameError::KeyDerivation.message(),
        "HKDF expand: invalid number of blocks, too large output"
    );
}

#[test]
fn relay_in_and_out() {
    let key = [7; KEY_LEN];
    let (mut out, mut back) = (0, 0);
    let chunk = vec![5u8; RELAY_BUF];
    let wire = relay_plain_to_encrypted(&chunk, &key, &mut out).unwrap().unwrap();
    assert_eq!(out, 1);
    assert!(relay_plain_to_encrypted(&[], &key, &mut out).unwrap().is_none());
    assert_eq!(out, 1);
    match relay_encrypted_to_plain(&wire, false, &key, &mut back).unwrap() {
        RelayAction::Write(data) => assert_eq!(data, chunk),
        other => panic!("{other:?}"),
    }
    assert_eq!(back, 1);
    assert!(matches!(
        relay_encrypted_to_plain(&[], false, &key, &mut back),
        Ok(RelayAction::Read(2))
    ));
    assert!(matches!(
        relay_encrypted_to_plain(&[], true, &key, &mut back),
        Ok(RelayAction::Finish)
    ));
    assert_eq!(
        relay_encrypted_to_plain(&[0, 1], false, &key, &mut back).unwrap_err(),
        FrameError::TooShort(1)
    );
}

#[test]
fn handshake_takes_its_turns() {
    let mut server = Handshake::new([1; KEY_LEN], false);
    assert!(matches!(secure_handshake(&mut server), HandshakeAction::Receive));
    server.receive([2; KEY_LEN]);
    let own = match secure_handshake(&mut server) {
        HandshakeAction::Send(nonce) => nonce,
        other => panic!("{other:?}"),
    };
    let (ck, sk) = match secure_handshake(&mut server) {
        HandshakeAction::Finish(ck, sk) => (ck, sk),
        other => panic!("{other:?}"),
    };
    assert_eq!(derive_session_keys(&[1; KEY_LEN], &[2; KEY_LEN], &own).unwrap(), (ck, sk));

    let mut client = Handshake::new([1; KEY_LEN], true);
    assert!(matches!(secure_handshake(&mut client), HandshakeAction::Send(_)));
    assert!(matches!(secure_handshake(&mut client), HandshakeAction::Receive));
}

#[test]
fn plain_frames() {
    assert_eq!(write_frame(b"abc"), vec![0, 3, b'a', b'b', b'c']);
    assert_eq!(write_frame(&vec![0u8; 65536 + 5])[..2], [0, 5]);
    assert_eq!(frame_of(read_frame(&[0, 3, b'a', b'b', b'c', 9], false)), b"abc");
    assert_eq!(frame_of(read_frame(&[0, 0], false)), b"");
    assert!(matches!(read_frame(&[], true), Ok(FrameRead::End)));
    assert!(matches!(read_frame(&[0], true), Ok(FrameRead::End)));
    assert!(matches!(read_frame(&[0], false), Ok(FrameRead::Need(1))));
    assert!(matches!(read_frame(&[0, 3, 1], false), Ok(FrameRead::Need(2))));
    assert_eq!(read_frame(&[0, 3, 1], true).unwrap_err(), FrameError::UnexpectedEof);
}

#[test]
fn plain_tunnel() {
    let mut tunnel = PlainTunnel::new();
    let wire = tunnel.send_frame(b"hello");
    assert_eq!(wire, b"\x00\x05hello");
    assert_eq!(frame_of(tunnel.recv_frame(&wire, false)), b"hello");
    tunnel.relay_bidirectional();
    assert!(tunnel.relaying);
    assert_eq!(PlainConnector::new("a:1".to_string()).server_addr, "a:1");
}

#[test]
fn encrypted_tunnel_pair() {
    let ((ck, sk), _) = shake(generate_psk());
    let mut client = EncryptedTunnel::new(ck, sk, true);
    let mut server = EncryptedTunnel::new(ck, sk, false);
    for i in 0..3u8 {
        let wire = client.send_frame(&[i; 4]).unwrap();
        assert_eq!(frame_of(server.recv_frame(&wire, false)), [i; 4]);
        let wire = server.send_frame(&[i, 9]).unwrap();
        assert_eq!(frame_of(client.recv_frame(&wire, false)), [i, 9]);
    }
    assert_eq!((client.c_nonce, client.s_nonce), (3, 3));
    assert_eq!((server.c_nonce, server.s_nonce), (3, 3));
    assert!(client.send_frame(&vec![0; MAX_PLAINTEXT + 1]).is_err());

    let (mut out, _) = client.relay_bidirectional();
    let (_, mut back) = server.relay_bidirectional();
    assert!(client.relaying && server.relaying);
    let wire = relay_plain_to_encrypted(b"data", &out.key, &mut out.nonce).unwrap().unwrap();
    match relay_encrypted_to_plain(&wire, false, &back.key, &mut back.nonce).unwrap() {
        RelayAction::Write(data) => assert_eq!(data, b"data"),
        other => panic!("{other:?}"),
    }
    let connector = EncryptedConnector::new("a:1".to_string(), [1; KEY_LEN]);
    assert_eq!(connector.server_addr, "a:1");
    assert_eq!(connector.psk, [1; KEY_LEN]);
}

#[test]
fn stream_that_is_cut_off() {
    let key = [7; KEY_LEN];
    let messages: [&[u8]; 3] = [b"one", b"", b"three"];
    let mut nonce = 0;
    let mut stream = Vec::new();
    for m in messages {
        stream.extend(write_encrypted_frame(m, &key, &mut nonce).unwrap());
    }
    for cut in 0..=stream.len() {
        let mut rest = &stream[..cut];
        let mut nonce = 0;
        let mut got = 0;
        while let Ok(FrameRead::Frame(p)) = read_encrypted_frame(rest, true, &key, &mut nonce) {
            assert_eq!(p, messages[got]);
            rest = &rest[2 + p.len() + TAG_LEN..];
            got += 1;
        }
        assert!(got <= 3);
        assert_eq!(got == 3, cut == stream.len());
    }
}

#[test]
fn handshake_sends_the_nonce_that_was_drawn() {
    let mut client = Handshake::new([1; KEY_LEN], true);
    match handshake_step(&mut client, [7; KEY_LEN]) {
        HandshakeAction::Send(nonce) => assert_eq!(nonce, [7; KEY_LEN]),
        other => panic!("{other:?}"),
    }
    assert!(matches!(handshake_step(&mut client, [8; KEY_LEN]), HandshakeAction::Receive));
    client.receive([9; KEY_LEN]);
    let keys = derive_session_keys(&[1; KEY_LEN], &[7; KEY_LEN], &[9; KEY_LEN]).unwrap();
    match handshake_step(&mut client, [8; KEY_LEN]) {
        HandshakeAction::Finish(ck, sk) => assert_eq!((ck, sk), keys),
        other => panic!("{other:?}"),
    }
    let mut sent = Vec::new();
    for psk in [[1; KEY_LEN], [2; KEY_LEN]] {
        let mut side = Handshake::new(psk, true);
        match secure_handshake(&mut side) {
            HandshakeAction::Send(nonce) => sent.push(nonce),
            other => panic!("{other:?}"),
        }
        assert_eq!(side.own, sent.last().copied());
    }
    assert_ne!(sent[0], sent[1]);
}

#[test]
fn full_counter_is_no_hindrance_where_no_frame_is_counted() {
    let key = [7; KEY_LEN];
    let mut nonce = u64::MAX - 1;
    let wire = write_encrypted_frame(b"last", &key, &mut nonce).unwrap();
    let mut back = u64::MAX - 1;
    assert_eq!(frame_of(read_encrypted_frame(&wire, true, &key, &mut back)), b"last");
    assert_eq!((nonce, back), (u64::MAX, u64::MAX));
    assert!(matches!(read_encrypted_frame(&[], true, &key, &mut back), Ok(FrameRead::End)));
    assert!(matches!(
        relay_encrypted_to_plain(&[], true, &key, &mut back),
        Ok(RelayAction::Finish)
    ));
    assert!(relay_plain_to_encrypted(&[], &key, &mut nonce).unwrap().is_none());
    assert!(write_encrypted_frame(&vec![0; MAX_PLAINTEXT + 1], &key, &mut nonce).is_err());
    assert_eq!((nonce, back), (u64::MAX, u64::MAX));
}

#[test]
fn errors_of_a_relay() {
    assert_eq!(relay_error(RelayOp::Read, "early eof"), "operation=read: early eof");
    assert_eq!(relay_error(RelayOp::Write, "broken pipe"), "operation=write: broken pipe");
    assert!(matches!(relay_ended(Ok(())), (Ok(()), None)));
    match relay_ended(Err("x".to_string())) {
        (Ok(()), Some(t)) => assert_eq!(t, "x"),
        other => panic!("{other:?}"),
    }
}

#[test]
fn directions_of_a_tunnel_are_separate() {
    let mut client = EncryptedTunnel::new([1; KEY_LEN], [2; KEY_LEN], true);
    let mut server = EncryptedTunnel::new([1; KEY_LEN], [2; KEY_LEN], false);
    let under_way = client.send_frame(b"a").unwrap();
    let wire = server.send_frame(b"b").unwrap();
    assert_eq!(frame_of(client.recv_frame(&wire, false)), b"b");
    assert_eq!(frame_of(server.recv_frame(&under_way, false)), b"a");
}
