use hostaddr::{format_host_port, to_host_port, AddrError, HostAddr, SockAddr};

fn parsed(host: &str, port: u16) -> Result<(String, u16), AddrError> {
    Ok((host.to_string(), port))
}

#[test]
fn test_to_host_port() {
    println!("{:?}", to_host_port("localhost: 9000", 1234));
    println!("{:?}", to_host_port("localhost:9000", 1234));
    println!("{:?}", to_host_port(" localhost:9000", 1234));
    println!("{:?}", to_host_port(" localhost : 9000 ", 1234));
    println!("{:?}", to_host_port("localhost : 9000 ", 1234));
    println!("{:?}", to_host_port("localhost ", 1111));
    println!("{:?}", to_host_port(" localhost ", 2222));
    println!("{:?}", to_host_port(" localhost: ", 3333));
    println!("{:?}", to_host_port(" localhost:abc ", 4444));

    assert_eq!(to_host_port("localhost: 9000", 1234), parsed("localhost", 9000));
    assert_eq!(to_host_port("localhost:9000", 1234), parsed("localhost", 9000));
    assert_eq!(to_host_port(" localhost:9000", 1234), parsed("localhost", 9000));
    assert_eq!(to_host_port(" localhost : 9000 ", 1234), parsed("localhost", 9000));
    assert_eq!(to_host_port("localhost : 9000 ", 1234), parsed("localhost", 9000));
    assert_eq!(to_host_port("localhost ", 1111), parsed("localhost", 1111));
    assert_eq!(to_host_port(" localhost ", 2222), parsed("localhost", 2222));
    assert_eq!(to_host_port(" localhost: ", 3333), parsed("localhost", 3333));
    assert_eq!(to_host_port(" localhost:abc ", 4444), parsed("localhost", 4444));
}

#[test]
fn white_space_around_host_and_port_is_ignored() {
    let padded = to_host_port(" localhost : 9000 ", 1234);
    let plain = to_host_port("localhost:9000", 1234);
    assert_eq!(padded, plain);
    assert_eq!(plain, parsed("localhost", 9000));
}

#[test]
fn unicode_white_space_is_trimmed() {
    assert_eq!(
        to_host_port("\u{3000}localhost\u{a0}:\u{2003}9000\t\r\n", 1),
        parsed("localhost", 9000)
    );
    assert_eq!(to_host_port("\u{85}\u{1680}h\u{2028}\u{2029}", 7), parsed("h", 7));
}

#[test]
fn white_space_inside_the_host_stays() {
    assert_eq!(to_host_port(" local host :80", 1), parsed("local host", 80));
}

#[test]
fn missing_port_gives_the_default() {
    assert_eq!(to_host_port("localhost", 1111), parsed("localhost", 1111));
}

#[test]
fn malformed_port_gives_the_default() {
    assert_eq!(to_host_port(" localhost:abc ", 4444), parsed("localhost", 4444));
    assert_eq!(to_host_port("localhost:90x", 5), parsed("localhost", 5));
    assert_eq!(to_host_port("localhost:9 0", 5), parsed("localhost", 5));
    assert_eq!(to_host_port("localhost:-1", 5), parsed("localhost", 5));
    assert_eq!(to_host_port("localhost:+80", 5), parsed("localhost", 5));
    assert_eq!(to_host_port("localhost:0x50", 5), parsed("localhost", 5));
    assert_eq!(to_host_port("localhost:8.0", 5), parsed("localhost", 5));
    assert_eq!(to_host_port("localhost:\u{0668}\u{0660}", 5), parsed("localhost", 5));
}

#[test]
fn empty_port_token_gives_the_default() {
    assert_eq!(to_host_port(" localhost: ", 3333), parsed("localhost", 3333));
    assert_eq!(to_host_port("localhost:", 3333), parsed("localhost", 3333));
}

#[test]
fn port_range_is_checked() {
    assert_eq!(to_host_port("h:0", 9), parsed("h", 0));
    assert_eq!(to_host_port("h:65535", 9), parsed("h", 65535));
    assert_eq!(to_host_port("h:65536", 9), parsed("h", 9));
    assert_eq!(to_host_port("h:99999999999999999999999999", 9), parsed("h", 9));
    assert_eq!(to_host_port("h:00080", 9), parsed("h", 80));
    assert_eq!(to_host_port("h:0000000000000000000000000000065535", 9), parsed("h", 65535));
}

#[test]
fn tokens_after_the_second_are_ignored() {
    assert_eq!(to_host_port("h:1:2:3", 9), parsed("h", 1));
    assert_eq!(to_host_port("h:x:2", 9), parsed("h", 9));
}

#[test]
fn empty_pieces_are_dropped() {
    assert_eq!(to_host_port(":9000", 9), parsed("9000", 9));
    assert_eq!(to_host_port("h::80", 9), parsed("h", 80));
    assert_eq!(to_host_port(" : h : : 80 : ", 9), parsed("h", 80));
}

#[test]
fn text_without_tokens_is_refused() {
    assert_eq!(to_host_port("", 1), Err(AddrError::EmptyInput));
    assert_eq!(to_host_port(":", 1), Err(AddrError::EmptyInput));
    assert_eq!(to_host_port(":::", 1), Err(AddrError::EmptyInput));
    assert_eq!(to_host_port("   ", 1), Err(AddrError::EmptyInput));
    assert_eq!(to_host_port(" : \t:\u{3000} ", 1), Err(AddrError::EmptyInput));
    assert_eq!(HostAddr::with_host_port(" : ", 1).unwrap_err(), AddrError::EmptyInput);
}

#[test]
fn text_with_content_parses() {
    for s in ["a", ":a", "a:", " a ", "::a::", "a:b", ".", "0", " : x", "\u{e9}"] {
        for default_port in [0u16, 1, 80, 65535] {
            assert!(to_host_port(s, default_port).is_ok(), "{:?}", s);
            assert!(HostAddr::with_host_port(s, default_port).is_ok(), "{:?}", s);
        }
    }
}

#[test]
fn parsed_address_formats_and_parses_back() {
    let texts = [
        "localhost:9000",
        " localhost : 9000 ",
        "localhost",
        " localhost:abc ",
        "local host : 1",
        "h:0",
        "h:65535",
        "h:65536",
        ":h",
        "a:1:2",
        "192.168.1.1:11211",
        "\u{3000}caf\u{e9}\u{3000}:\u{a0}443",
    ];
    for s in texts {
        for default_port in [0u16, 7, 11211, 65535] {
            let (host, port) = to_host_port(s, default_port).unwrap();
            let addr = HostAddr::with_host_port(s, default_port).unwrap();
            assert_eq!(addr.get_host(), host);
            assert_eq!(addr.get_port(), port);
            let text = addr.to_string();
            assert_eq!(to_host_port(&text, default_port), Ok((host.clone(), port)));
            let again = HostAddr::with_host_port(&text, default_port).unwrap();
            assert_eq!(again.get_host(), host);
            assert_eq!(again.get_port(), port);
            assert_eq!(again.to_string(), text);
        }
    }
}

#[test]
fn address_formats_as_host_and_port() {
    let addr = HostAddr::with_host_port("localhost:9000", 1).unwrap();
    assert_eq!(addr.to_string(), "localhost:9000");
    assert_eq!(format_host_port("localhost", Some(9000)), "localhost:9000");
    assert_eq!(HostAddr::with_host_port(" localhost ", 0).unwrap().to_string(), "localhost:0");
    assert_eq!(format_host_port("h", Some(65535)), "h:65535");
    assert_eq!(format_host_port("h", Some(10)), "h:10");
    assert_eq!(format_host_port("h", Some(7)), "h:7");
}

#[test]
fn address_without_port_formats_as_host() {
    assert_eq!(format_host_port("localhost", None), "localhost");
    assert_eq!(HostAddr::new().to_string(), "");
}

#[test]
fn blank_address_has_no_host_and_no_port() {
    let addr = HostAddr::new();
    assert_eq!(addr.get_host(), "");
    assert!(!addr.has_port());
    assert_eq!(addr.get_port(), 0);
}

#[test]
fn parsed_address_always_has_a_port() {
    let addr = HostAddr::with_host_port("localhost", 1111).unwrap();
    assert!(addr.has_port());
    assert_eq!(addr.get_host(), "localhost");
    assert_eq!(addr.get_port(), 1111);
    let addr = HostAddr::with_host_port("localhost:0", 1111).unwrap();
    assert!(addr.has_port());
    assert_eq!(addr.get_port(), 0);
}

#[test]
fn host_is_handed_out_as_a_copy() {
    let addr = HostAddr::with_host_port("localhost:9000", 1).unwrap();
    let mut host = addr.get_host();
    host.push_str(".example");
    assert_eq!(addr.get_host(), "localhost");
}

#[test]
fn dotted_host_converts_to_octets() {
    let addr = HostAddr::with_host_port("192.168.1.1", 80).unwrap();
    assert_eq!(addr.get_ip_v4(), Ok((192, 168, 1, 1)));
    let addr = HostAddr::with_host_port("0.0.0.0:1", 80).unwrap();
    assert_eq!(addr.get_ip_v4(), Ok((0, 0, 0, 0)));
    let addr = HostAddr::with_host_port("255.255.255.255", 80).unwrap();
    assert_eq!(addr.get_ip_v4(), Ok((255, 255, 255, 255)));
    let addr = HostAddr::with_host_port("10 . 0 .. 0 . 1", 80).unwrap();
    assert_eq!(addr.get_ip_v4(), Ok((10, 0, 0, 1)));
}

#[test]
fn host_with_fewer_than_four_segments_is_malformed() {
    for s in ["localhost", "1.2.3", "1.2.3.", "1...2", "..."] {
        let addr = HostAddr::with_host_port(s, 80).unwrap();
        assert_eq!(addr.get_ip_v4(), Err(AddrError::MalformedHost), "{:?}", s);
        assert_eq!(addr.get_sock_addr(), Err(AddrError::MalformedHost), "{:?}", s);
    }
    assert_eq!(HostAddr::new().get_ip_v4(), Err(AddrError::MalformedHost));
    assert_eq!(HostAddr::new().get_sock_addr(), Err(AddrError::MalformedHost));
}

#[test]
fn invalid_octet_counts_as_zero() {
    let addr = HostAddr::with_host_port("256.1.x.4", 80).unwrap();
    assert_eq!(addr.get_ip_v4(), Ok((0, 1, 0, 4)));
    let addr = HostAddr::with_host_port("a.b.c.d", 80).unwrap();
    assert_eq!(addr.get_ip_v4(), Ok((0, 0, 0, 0)));
    let addr = HostAddr::with_host_port("1.-2.+3.004", 80).unwrap();
    assert_eq!(addr.get_ip_v4(), Ok((1, 0, 0, 4)));
}

#[test]
fn segments_after_the_fourth_are_ignored() {
    let addr = HostAddr::with_host_port("1.2.3.4.5.6", 80).unwrap();
    assert_eq!(addr.get_ip_v4(), Ok((1, 2, 3, 4)));
}

#[test]
fn socket_address_joins_octets_and_port() {
    let addr = HostAddr::with_host_port("192.168.1.1:11211", 80).unwrap();
    assert_eq!(addr.get_sock_addr(), Ok(SockAddr { ip: (192, 168, 1, 1), port: 11211 }));
    let addr = HostAddr::with_host_port("127.0.0.1", 80).unwrap();
    assert_eq!(addr.get_sock_addr(), Ok(SockAddr { ip: (127, 0, 0, 1), port: 80 }));
    let addr = HostAddr::with_host_port("127.0.0.1:x", 0).unwrap();
    assert_eq!(addr.get_sock_addr(), Ok(SockAddr { ip: (127, 0, 0, 1), port: 0 }));
}
