use seam_protocol::cli::connect::{host_of, parse_seam_line, seam_line, session_cipher, shell_quote};
use seam_protocol::cli::forward::{
    address, bind_address, fault_message, frame_header, header, header_len, hop_command,
    hop_destination, length_message, parse_forward_spec, parse_header, user_host, HeaderFault,
};
use seam_protocol::cli::fwd::{backoff_ms, failures_after, parse_fwd_spec};
use seam_protocol::cli::pipe;
use seam_protocol::cli::proxy::{
    choose_method, conclude, connect_report, domain_text, greeting, ipv4_text, request,
    socks5_reply, AddressKind, Request,
};
use seam_protocol::cli::scan::{
    block_named, clean_banner, expand_cidr, parse_ipv4, parse_ports, parse_targets, scan_head,
    scan_row, Targets,
};
use seam_protocol::cli::serve::{forward_fault, forward_length_fault};
use seam_protocol::cli::tunnel::{parse_direct_spec, parse_tunnel_spec};
use seam_protocol::handshake::IdentityKeypair;
use seam_protocol::CipherSuite;

#[test]
fn quoting_survives_a_shell() {
    assert_eq!(shell_quote("plain"), "'plain'");
    assert_eq!(shell_quote("it's"), "'it'\\''s'");
    assert_eq!(shell_quote(""), "''");
    assert_eq!(shell_quote("a b;$(c)"), "'a b;$(c)'");
}

#[test]
fn an_announcement_is_read_back() {
    let id = IdentityKeypair::generate();
    let line = seam_line(40000, &id.x25519_public, &id.kem_pk);
    assert!(line.starts_with("SEAM PORT=40000 X25519="));
    let (port, x, kem) = parse_seam_line(&line).unwrap();
    assert_eq!(port, 40000);
    assert_eq!(x, id.x25519_public);
    assert_eq!(seam_line(port, &x, &kem), line);
}

#[test]
fn broken_announcements_are_refused() {
    assert!(parse_seam_line("").is_err());
    assert!(parse_seam_line("SEAM PORT=1").is_err());
    assert!(parse_seam_line("SEAM PORT=99999 X25519=00 KEM=00").is_err());
    let id = IdentityKeypair::generate();
    let line = seam_line(1, &id.x25519_public, &id.kem_pk);
    assert!(parse_seam_line(&line.replace("X25519=", "X25519=z")).is_err());
}

#[test]
fn fips_mode_decides_the_cipher() {
    assert!(matches!(session_cipher(true, "chacha20poly1305"), CipherSuite::Aes256Gcm));
    assert!(matches!(session_cipher(false, "aes256gcm"), CipherSuite::Aes256Gcm));
    assert!(matches!(session_cipher(false, "nonsense"), CipherSuite::ChaCha20Poly1305));
}

#[test]
fn hosts_follow_users() {
    assert_eq!(host_of("root@box"), "box");
    assert_eq!(host_of("box"), "box");
    assert_eq!(user_host("root@box"), (Some("root".to_string()), "box".to_string()));
    assert_eq!(user_host("box"), (None, "box".to_string()));
}

#[test]
fn forward_specs() {
    assert_eq!(
        parse_forward_spec("8080:localhost:80"),
        Ok((8080, "localhost".to_string(), 80))
    );
    assert_eq!(parse_forward_spec("1:::1:2"), Ok((1, "::1".to_string(), 2)));
    assert_eq!(
        parse_forward_spec("8080"),
        Err("forward spec must be LOCAL_PORT:REMOTE_HOST:REMOTE_PORT".to_string())
    );
    assert_eq!(
        parse_forward_spec("8080:80"),
        Err("forward spec must be LOCAL_PORT:REMOTE_HOST:REMOTE_PORT".to_string())
    );
    assert_eq!(parse_forward_spec("x:h:1"), Err("invalid local port: x".to_string()));
    assert_eq!(parse_forward_spec("1:h:y"), Err("invalid remote port: y".to_string()));
    assert_eq!(
        parse_forward_spec("1::2"),
        Err("remote_host must not be empty in forward spec".to_string())
    );
}

#[test]
fn forward_headers_are_read_back() {
    let h = header("db.local", 5432);
    assert_eq!(h, b"\x00\x08db.local\x15\x38");
    assert_eq!(parse_header(&h), Ok(("db.local".to_string(), 5432)));
    let framed = frame_header(&h);
    assert_eq!(&framed[..4], &[0, 0, 0, 12]);
    assert_eq!(header_len(&[0, 0, 0, 12]), Ok(12));
    assert_eq!(header_len(&[0, 0, 0, 3]), Err(3));
    assert_eq!(header_len(&[0, 0, 16, 1]), Err(4097));
}

#[test]
fn broken_forward_headers() {
    assert!(matches!(parse_header(&[0, 1]), Err(HeaderFault::TooShort)));
    assert!(matches!(parse_header(&[0, 9, 65, 0, 1]), Err(HeaderFault::Truncated)));
    assert!(matches!(parse_header(&[0, 1, 0xff, 0, 1]), Err(HeaderFault::NotUtf8)));
    assert!(fault_message("serve", HeaderFault::TooShort).contains("too short"));
    assert!(length_message("serve", 3).contains('3'));
}

#[test]
fn addresses() {
    assert_eq!(address("h", 1), "h:1");
    assert_eq!(bind_address(true, 80), "0.0.0.0:80");
    assert_eq!(bind_address(false, 80), "127.0.0.1:80");
    assert!(hop_command("u@h", Some(2222)).contains("2222"));
    assert_eq!(hop_destination(&header("h", 22)), "h:22");
}

#[test]
fn tunnel_specs() {
    let t = parse_tunnel_spec("8080:root@box:80").unwrap();
    assert_eq!((t.local_port, t.remote_port), (8080, 80));
    assert_eq!(t.user.as_deref(), Some("root"));
    assert_eq!((t.host.as_str(), t.remote_host.as_str()), ("box", "localhost"));
    let t = parse_tunnel_spec("1:box:db:5432").unwrap();
    assert_eq!(t.user, None);
    assert_eq!((t.remote_host.as_str(), t.remote_port), ("db", 5432));
    assert_eq!(
        parse_tunnel_spec("1").unwrap_err(),
        "tunnel spec must be LOCAL:user@host:RPORT"
    );
    assert_eq!(parse_tunnel_spec("z:h:1").unwrap_err(), "invalid local port: z");
    assert_eq!(parse_tunnel_spec("1:h").unwrap_err(), "tunnel spec missing remote port");
    assert_eq!(parse_tunnel_spec("1:h:z").unwrap_err(), "invalid remote port: z");
    assert!(parse_direct_spec("8080").is_ok() || parse_direct_spec("8080:9090").is_ok());
}

#[test]
fn fwd_specs() {
    assert_eq!(
        parse_fwd_spec("root@box:3000"),
        Ok((Some("root".to_string()), "box".to_string(), 3000))
    );
    assert_eq!(parse_fwd_spec("box:3000"), Ok((None, "box".to_string(), 3000)));
    assert_eq!(
        parse_fwd_spec("box"),
        Err("fwd spec must be user@host:REMOTE_PORT".to_string())
    );
    assert_eq!(parse_fwd_spec("box:x"), Err("invalid remote port: x".to_string()));
}

#[test]
fn waiting_grows_with_failures() {
    let mut n: u32 = 0;
    let mut last: u64 = 0;
    for _ in 0..10 {
        n = failures_after(n, false);
        assert!(backoff_ms(n) >= last);
        last = backoff_ms(n);
    }
    assert_eq!(failures_after(n, true), 0);
}

#[test]
fn pipe_commands_are_quoted() {
    assert_eq!(pipe::recv_command(&vec![]), "_pipe-recv --port 0");
    assert_eq!(
        pipe::recv_command(&vec!["echo".to_string(), "a b".to_string()]),
        "_pipe-recv --port 0 -- 'echo' 'a b'"
    );
}

#[test]
fn socks_greetings() {
    assert_eq!(greeting(&[5, 2]), Ok(2));
    assert!(greeting(&[4, 1]).is_err());
    assert_eq!(choose_method(&[2, 0]), ([5, 0], true));
    assert_eq!(choose_method(&[2]), ([5, 0xff], false));
}

#[test]
fn socks_requests() {
    assert!(matches!(request(&[5, 1, 0, 1]), Request::Connect(AddressKind::Ipv4)));
    assert!(matches!(request(&[5, 1, 0, 3]), Request::Connect(AddressKind::Domain)));
    assert!(matches!(request(&[5, 1, 0, 4]), Request::Connect(AddressKind::Ipv6)));
    assert!(matches!(request(&[5, 2, 0, 1]), Request::Refuse { reply: 7, .. }));
    assert!(matches!(request(&[5, 1, 0, 9]), Request::Refuse { reply: 8, .. }));
    assert!(matches!(request(&[4, 1, 0, 1]), Request::Drop { .. }));
    assert_eq!(ipv4_text(&[10, 0, 0, 255]), "10.0.0.255");
    assert_eq!(domain_text(b"example.org"), Ok("example.org".to_string()));
    assert!(domain_text(&[0xff]).is_err());
}

#[test]
fn socks_replies() {
    assert_eq!(socks5_reply(1), [5, 1, 0, 1, 0, 0, 0, 0, 0, 0]);
    assert_eq!(connect_report(true), 0);
    assert_ne!(connect_report(false), 0);
    let (reply, err) = conclude(0, "h", 1);
    assert_eq!(reply[1], 0);
    assert_eq!(err, None);
    let (reply, err) = conclude(1, "h", 1);
    assert_eq!(reply[1], 1);
    assert!(err.unwrap().contains("h:1"));
}

#[test]
fn ports_are_sorted_once() {
    assert_eq!(parse_ports("443,22,80-82,81"), vec![22, 80, 81, 82, 443]);
    assert_eq!(parse_ports("0,x,70000"), vec![0]);
    assert_eq!(parse_ports("5-3, 9 "), vec![9]);
}

#[test]
fn blocks_of_addresses() {
    assert_eq!(expand_cidr(0x0a00_0005, 32), vec![0x0a00_0005]);
    assert_eq!(expand_cidr(0x0a00_0005, 30), vec![0x0a00_0005, 0x0a00_0006, 0x0a00_0007]);
    for prefix in 20..32u8 {
        for host in expand_cidr(0x0a01_0203, prefix) {
            assert_eq!(host >> (32 - prefix), 0x0a01_0203u32 >> (32 - prefix));
        }
    }
    let net = expand_cidr(0xc0a8_0164, 24);
    assert_eq!(net.len(), 255);
    assert_eq!((net[0], net[254]), (0xc0a8_0101, 0xc0a8_01ff));
}

#[test]
fn dotted_addresses() {
    assert_eq!(parse_ipv4("192.168.1.100"), Some(0xc0a8_0164));
    assert_eq!(parse_ipv4("0.0.0.0"), Some(0));
    assert_eq!(parse_ipv4("255.255.255.255"), Some(u32::MAX));
    for bad in ["", "1.2.3", "1.2.3.4.5", "256.1.1.1", "01.2.3.4", "1..2.3", "a.b.c.d", "+1.2.3.4"] {
        assert_eq!(parse_ipv4(bad), None, "{bad}");
    }
}

#[test]
fn scan_targets() {
    assert_eq!(block_named("10.0.0.5/30"), Some((0x0a00_0005, 30)));
    assert_eq!(block_named("10.0.0.5/zz"), Some((0x0a00_0005, 32)));
    assert_eq!(block_named("10.0.0.5"), None);
    match parse_targets("10.0.0.5/31") {
        Targets::Addresses(v) => assert_eq!(v, vec![0x0a00_0005]),
        Targets::Name => panic!(),
    }
    match parse_targets("10.0.0.5") {
        Targets::Addresses(v) => assert_eq!(v, vec![0x0a00_0005]),
        Targets::Name => panic!(),
    }
    assert!(matches!(parse_targets("example.org"), Targets::Name));
    assert!(matches!(parse_targets("::1"), Targets::Name));
}

#[test]
fn banners_are_cleaned() {
    assert_eq!(clean_banner(b"SSH-2.0-x\r\n\0"), Some("SSH-2.0-x".to_string()));
    assert_eq!(clean_banner(b"a\nb\x07c"), Some("a bc".to_string()));
    assert_eq!(clean_banner(b"\r\n\0"), None);
    assert_eq!(clean_banner(&[b'x'; 300]).unwrap().len(), 120);
    assert_eq!(clean_banner(&[0xff, b'o', b'k']), Some("ok".to_string()));
}

#[test]
fn scan_output() {
    let head = scan_head(2, 3, "10.0.0.0/31").unwrap();
    assert!(head.contains('2') && head.contains('3') && head.contains('6'), "{head}");
    let one = scan_head(1, 1, "h").unwrap();
    assert!(!one.contains("hosts"), "{one}");
    assert!(scan_head(0, 3, "nowhere").is_err());
    assert!(scan_head(1, 0, "h").is_err());
    assert!(scan_row("h", 22, Some(3), "SSH").contains("22"));
}

#[test]
fn refused_destinations_are_explained() {
    assert_eq!(forward_fault(HeaderFault::TooShort), "forward header too short");
    assert_eq!(forward_fault(HeaderFault::Truncated), "forward header truncated");
    assert_eq!(forward_fault(HeaderFault::NotUtf8), "invalid UTF-8 in forward host");
    assert_eq!(
        forward_length_fault(5000, "10.0.0.1:7"),
        "invalid forward header length 5000 from 10.0.0.1:7"
    );
}
