use vs_vpn::protocol::{
    encode_address, encode_header, parse_header, read_address, target_string, AddressRead,
    AddressType, HeaderError, SocksCommand, SocksReply,
};

fn header(addr: &str, port: u16) -> (AddressType, Vec<u8>) {
    let (atyp, addr_bytes) = encode_address(addr);
    let mut header = Vec::with_capacity(1 + addr_bytes.len() + 2);
    header.push(atyp.to_u8());
    header.extend_from_slice(&addr_bytes);
    header.extend_from_slice(&port.to_be_bytes());
    (atyp, header)
}

#[test]
fn test_encode_address_ipv4() {
    let (atyp, bytes) = encode_address("192.168.1.1");
    assert_eq!(atyp, AddressType::Ipv4);
    assert_eq!(bytes, vec![192, 168, 1, 1]);
}

#[test]
fn test_encode_address_ipv6() {
    let (atyp, bytes) = encode_address("::1");
    assert_eq!(atyp, AddressType::Ipv6);
    assert_eq!(bytes.len(), 16);
    assert_eq!(bytes[15], 1);
    for b in bytes.iter().take(15) {
        assert_eq!(*b, 0);
    }
}

#[test]
fn test_encode_address_domain() {
    let (atyp, bytes) = encode_address("example.com");
    assert_eq!(atyp, AddressType::Domain);
    assert_eq!(bytes[0], 11);
    assert_eq!(&bytes[1..], b"example.com");
}

#[test]
fn test_encode_address_localhost_ipv4() {
    let (atyp, bytes) = encode_address("127.0.0.1");
    assert_eq!(atyp, AddressType::Ipv4);
    assert_eq!(bytes, vec![127, 0, 0, 1]);
}

#[test]
fn test_parse_header_ipv4() {
    let data = &[0x01, 10, 0, 0, 1, 0x01, 0xBB];
    let (atyp, addr, port) = parse_header(data).unwrap();
    assert_eq!(atyp, AddressType::Ipv4);
    assert_eq!(addr, "10.0.0.1");
    assert_eq!(port, 443);
}

#[test]
fn test_parse_header_domain() {
    let data = &[0x03, 3, b'f', b'o', b'o', 0x1F, 0x90];
    let (atyp, addr, port) = parse_header(data).unwrap();
    assert_eq!(atyp, AddressType::Domain);
    assert_eq!(addr, "foo");
    assert_eq!(port, 8080);
}

#[test]
fn test_parse_header_ipv6() {
    let mut data = vec![0x04u8];
    data.extend(std::iter::repeat_n(0u8, 16));
    data[1 + 15] = 1;
    data.extend(&80u16.to_be_bytes());
    let (atyp, addr, port) = parse_header(&data).unwrap();
    assert_eq!(atyp, AddressType::Ipv6);
    assert_eq!(addr, "0000:0000:0000:0000:0000:0000:0000:0001");
    assert_eq!(port, 80);
}

#[test]
fn test_parse_header_empty() {
    let result = parse_header(&[]);
    assert!(result.is_err());
    assert_eq!(result.unwrap_err().message(), "empty header");
}

#[test]
fn test_parse_header_invalid_atyp() {
    let data = &[0xFF];
    let result = parse_header(data);
    assert!(result.is_err());
    let e = result.unwrap_err();
    assert_eq!(e, HeaderError::UnsupportedAddressType(0xFF));
    assert_eq!(e.message(), "unsupported address type: 0xff");
    assert_eq!(
        parse_header(&[0x02]).unwrap_err().message(),
        "unsupported address type: 0x02"
    );
}

#[test]
fn test_parse_header_short_ipv4() {
    let data = &[0x01, 10, 0, 0];
    let result = parse_header(data);
    assert!(result.is_err());
    assert_eq!(result.unwrap_err().message(), "header too short for IPv4");
}

#[test]
fn test_parse_header_short_domain() {
    let data = &[0x03, 5];
    let result = parse_header(data);
    assert!(result.is_err());
    assert_eq!(result.unwrap_err().message(), "header too short for domain");
    assert_eq!(parse_header(&[0x03]).unwrap_err(), HeaderError::ShortDomain);
    assert_eq!(
        parse_header(&[0x03, 1, b'a', 0]).unwrap_err(),
        HeaderError::ShortDomain
    );
}

#[test]
fn test_parse_header_short_ipv6() {
    let data = &[0x04, 0, 0, 0, 0];
    let result = parse_header(data);
    assert!(result.is_err());
    assert_eq!(result.unwrap_err().message(), "header too short for IPv6");
}

#[test]
fn test_encode_parse_roundtrip_ipv4() {
    let addr = "8.8.8.8";
    let port: u16 = 53;
    let (atyp, header) = header(addr, port);
    let (parsed_atyp, parsed_addr, parsed_port) = parse_header(&header).unwrap();
    assert_eq!(parsed_atyp, atyp);
    assert_eq!(parsed_addr, addr);
    assert_eq!(parsed_port, port);
}

#[test]
fn test_encode_parse_roundtrip_domain() {
    let addr = "api.github.com";
    let port: u16 = 443;
    let (atyp, header) = header(addr, port);
    let (parsed_atyp, parsed_addr, parsed_port) = parse_header(&header).unwrap();
    assert_eq!(parsed_atyp, atyp);
    assert_eq!(parsed_addr, addr);
    assert_eq!(parsed_port, port);
}

#[test]
fn test_encode_parse_roundtrip_ipv6() {
    let addr = "2001:db8::1";
    let port: u16 = 80;
    let (atyp, header) = header(addr, port);
    let (parsed_atyp, parsed_addr, parsed_port) = parse_header(&header).unwrap();
    assert_eq!(parsed_atyp, atyp);
    assert_eq!(parsed_port, port);
    assert_eq!(parsed_addr, "2001:0db8:0000:0000:0000:0000:0000:0001");
    let octets = vec![0x20, 0x01, 0x0d, 0xb8, 0, 0, 0, 0, 0, 0, 0, 0, 0, 0, 0, 1];
    assert_eq!(encode_address(addr).1, octets);
}

#[test]
fn header_of_a_target() {
    assert_eq!(
        encode_header("foo", 8080),
        vec![0x03, 3, b'f', b'o', b'o', 0x1F, 0x90]
    );
    assert_eq!(encode_header("10.0.0.1", 443), vec![1, 10, 0, 0, 1, 1, 0xBB]);
    assert_eq!(target_string("foo", 8080), "foo:8080");
    assert_eq!(target_string("::1", 0), "::1:0");
}

#[test]
fn header_ignores_what_follows() {
    let data = &[0x01, 10, 0, 0, 1, 0x01, 0xBB, 9, 9];
    assert_eq!(parse_header(data).unwrap().1, "10.0.0.1");
}

#[test]
fn name_that_is_too_long_for_the_header() {
    let name = "a".repeat(257);
    let (kind, bytes) = encode_address(&name);
    assert_eq!(kind, AddressType::Domain);
    assert_eq!(bytes[0], 1);
    assert_eq!(bytes.len(), 258);
    let (_, addr, port) = parse_header(&encode_header(&name, 80)).unwrap();
    assert_eq!(addr, "a");
    assert_eq!(port, 0x6161);
}

#[test]
fn name_that_is_not_utf8() {
    let data = &[0x03, 3, b'a', 0xFF, b'b', 0, 80];
    assert_eq!(parse_header(data).unwrap().1, "a\u{FFFD}b");
}

#[test]
fn addresses_that_are_names() {
    for name in [
        "256.1.1.1",
        "1.2.3",
        "01.2.3.4",
        "1.2.3.4.5",
        "1.2.3.4 ",
        "::1%lo",
        "1::2::3",
        "12345::",
        ":::",
        "1:2:3:4:5:6:7",
        "1:2:3:4:5:6:7:8:9",
        "",
    ] {
        assert_eq!(encode_address(name).0, AddressType::Domain, "{name}");
    }
}

#[test]
fn ipv6_addresses_in_every_form() {
    let cases: [(&str, [u8; 16]); 5] = [
        ("::", [0; 16]),
        ("1:2:3:4:5:6:7:8", [0, 1, 0, 2, 0, 3, 0, 4, 0, 5, 0, 6, 0, 7, 0, 8]),
        ("fe80::", [0xfe, 0x80, 0, 0, 0, 0, 0, 0, 0, 0, 0, 0, 0, 0, 0, 0]),
        (
            "::ffff:192.0.2.128",
            [0, 0, 0, 0, 0, 0, 0, 0, 0, 0, 0xff, 0xff, 192, 0, 2, 128],
        ),
        ("ABCD::0f", [0xab, 0xcd, 0, 0, 0, 0, 0, 0, 0, 0, 0, 0, 0, 0, 0, 0x0f]),
    ];
    for (text, octets) in cases {
        let (kind, bytes) = encode_address(text);
        assert_eq!(kind, AddressType::Ipv6, "{text}");
        assert_eq!(bytes, octets.to_vec(), "{text}");
    }
}

#[test]
fn address_is_read_as_it_arrives() {
    assert!(matches!(read_address(AddressType::Ipv4, &[10, 0]), AddressRead::Need(2)));
    assert!(matches!(read_address(AddressType::Ipv6, &[]), AddressRead::Need(16)));
    assert!(matches!(read_address(AddressType::Domain, &[]), AddressRead::Need(1)));
    assert!(matches!(read_address(AddressType::Domain, &[3, b'f']), AddressRead::Need(2)));
    match read_address(AddressType::Domain, &[3, b'f', b'o', b'o']) {
        AddressRead::Done(t) => assert_eq!(t, "foo"),
        other => panic!("{other:?}"),
    }
    match read_address(AddressType::Ipv4, &[10, 0, 0, 1]) {
        AddressRead::Done(t) => assert_eq!(t, "10.0.0.1"),
        other => panic!("{other:?}"),
    }
}

#[test]
fn codes_of_kinds_commands_and_replies() {
    for v in 0..=255u8 {
        let kind = AddressType::from_u8(v);
        assert_eq!(kind.is_some(), matches!(v, 1 | 3 | 4));
        if let Some(kind) = kind {
            assert_eq!(kind.to_u8(), v);
        }
    }
    assert_eq!(SocksCommand::from_u8(1), Some(SocksCommand::Connect));
    assert_eq!(SocksCommand::from_u8(2), Some(SocksCommand::Bind));
    assert_eq!(SocksCommand::from_u8(3), Some(SocksCommand::UdpAssociate));
    assert_eq!(SocksCommand::from_u8(0), None);
    assert_eq!(SocksCommand::from_u8(4), None);
    assert_eq!(SocksReply::Succeeded.to_u8(), 0x00);
    assert_eq!(SocksReply::GeneralFailure.to_u8(), 0x01);
    assert_eq!(SocksReply::ConnectionNotAllowed.to_u8(), 0x02);
    assert_eq!(SocksReply::NetworkUnreachable.to_u8(), 0x03);
    assert_eq!(SocksReply::HostUnreachable.to_u8(), 0x04);
    assert_eq!(SocksReply::ConnectionRefused.to_u8(), 0x05);
    assert_eq!(SocksReply::CommandNotSupported.to_u8(), 0x07);
}
