use rs_proxy::cipher::Rc4Cipher;
use rs_proxy::client::quic_client::request_header;
use rs_proxy::client::tcp_client::TcpProxy;
use rs_proxy::commons::tcp_mux::Mode;
use rs_proxy::commons::{check_magic_code, option_convert, rc4_crypto, OptionConvert, StdResAutoConvert, StdResConvert};
use rs_proxy::error::ProxyError;
use rs_proxy::message::compose::{connect_msg_build, data_msg_build, disconnect_msg_build};
use rs_proxy::message::{create_channel_id, crypto_bytes, decode, encode, seal_msg, Msg};
use rs_proxy::server::tcp_server::{open_target, parse_target};
use rs_proxy::socks5::{Address, IpAddress};

#[test]
fn text_id_messages_roundtrip() {
    let id = create_channel_id();
    assert_eq!(id.len(), 4);
    assert!(id.chars().all(|c| c == '_' || c == '-' || c.is_ascii_alphanumeric()));

    let bytes = encode(Msg::CONNECT(id.clone(), ("host.example".to_string(), 8443)));
    assert_eq!(bytes[0], 0x00);
    assert_eq!(&bytes[1..5], id.as_bytes());
    match decode(bytes) {
        Ok(Msg::CONNECT(got, (host, port))) => {
            assert_eq!(got, id);
            assert_eq!(host, "host.example");
            assert_eq!(port, 8443);
        }
        _ => panic!("not a connect message"),
    }

    let bytes = encode(Msg::DATA("abcd".to_string(), vec![1, 2]));
    assert_eq!(bytes, vec![0x03, b'a', b'b', b'c', b'd', 1, 2]);
    assert!(matches!(decode(bytes), Ok(Msg::DATA(_, d)) if d == vec![1, 2]));

    let bytes = encode(Msg::DISCONNECT("wxyz".to_string()));
    assert_eq!(bytes, vec![0x01, b'w', b'x', b'y', b'z']);
    assert!(matches!(decode(bytes), Ok(Msg::DISCONNECT(s)) if s == "wxyz"));

    assert!(matches!(decode(vec![0x07, b'a', b'b', b'c', b'd']), Err(ProxyError::Message)));
}

#[test]
fn text_id_frame_decrypts() {
    let mut w = Rc4Cipher::new(b"key");
    let frame = seal_msg(Msg::DISCONNECT("abcd".to_string()), &mut w).unwrap();
    assert_eq!(frame[0..2], [0, 5]);
    let mut r = Rc4Cipher::new(b"key");
    let plain = crypto_bytes(&frame[2..], &mut r, Mode::Decrypt).unwrap();
    assert_eq!(plain, vec![0x01, b'a', b'b', b'c', b'd']);
}

#[test]
fn composed_messages() {
    let m = connect_msg_build(Address::IP(IpAddress::V4([1, 2, 3, 4]), 80), "id".to_string());
    assert_eq!(m, vec![0x01, b'i', b'd', 1, 2, 3, 4, b':', 0, 80]);
    let m = connect_msg_build(Address::DOMAIN("a.b".to_string(), 0x1234), "z".to_string());
    assert_eq!(m, vec![0x01, b'z', b'a', b'.', b'b', b':', 0x12, 0x34]);
    assert_eq!(disconnect_msg_build("q".to_string()), vec![0x02, b'q']);
    assert_eq!(data_msg_build(vec![9, 9], "q".to_string()), vec![9, 9, b'q']);
}

#[test]
fn handshake_decrypts_to_magic_and_target() {
    let proxy = TcpProxy::new(vec![("server", Rc4Cipher::new(b"123a"))], 0);
    assert_eq!(proxy.choose_server(), 0);
    assert_eq!(*proxy.server(0), "server");
    assert_eq!(proxy.buff_size(), 0);
    let (bytes, mut after) = proxy.handshake(0, &(b"abc".to_vec(), 80)).unwrap();
    assert_eq!(bytes.len(), 4 + 2 + 5);

    let mut fresh = Rc4Cipher::new(b"123a");
    let mut magic = vec![0u8; 4];
    rc4_crypto(&bytes[0..4], &mut magic, &mut fresh).unwrap();
    assert_eq!(magic, 0xA5C878F0u32.to_be_bytes().to_vec());
    assert_eq!(bytes[4..6], [0, 5]);

    let mut fresh = Rc4Cipher::new(b"123a");
    let mut header = vec![0u8; 5];
    rc4_crypto(&bytes[6..], &mut header, &mut fresh).unwrap();
    assert_eq!(header, vec![b'a', b'b', b'c', 0, 80]);

    // both ciphers have now used five key-stream bytes
    let mut x = vec![0u8; 3];
    let mut y = vec![0u8; 3];
    rc4_crypto(&[1, 2, 3], &mut x, &mut after).unwrap();
    rc4_crypto(&[1, 2, 3], &mut y, &mut fresh).unwrap();
    assert_eq!(x, y);
}

#[test]
fn server_choice_stays_in_list() {
    let proxy = TcpProxy::new(
        vec![(1u8, Rc4Cipher::new(b"a")), (2u8, Rc4Cipher::new(b"b")), (3u8, Rc4Cipher::new(b"c"))],
        16,
    );
    for _ in 0..50 {
        assert!(proxy.choose_server() < 3);
    }
}

#[test]
fn target_header_parses() {
    let (host, port) = parse_target(&[b'a', b'.', b'c', 0x00, 0x16]).unwrap();
    assert_eq!(host, "a.c");
    assert_eq!(port, 22);
    let (host, port) = parse_target(&[0x01, 0x00]).unwrap();
    assert_eq!(host, "");
    assert_eq!(port, 256);
    assert!(matches!(parse_target(&[0xFF, 0, 1]), Err(ProxyError::InvalidUtf8)));
}

#[test]
fn stream_header_layout() {
    assert_eq!(request_header(&"ab".to_string(), 1), vec![4, b'a', b'b', 0, 1]);
}

#[test]
fn conversions() {
    assert!(matches!(option_convert(Some(3), "x"), Ok(3)));
    match option_convert::<u8>(None, "Config error") {
        Err(ProxyError::Custom(m)) => assert_eq!(m, "Config error"),
        _ => panic!("expected an error"),
    }
    match None::<u8>.option_to_res("missing") {
        Err(ProxyError::Custom(m)) => assert_eq!(m, "missing"),
        _ => panic!("expected an error"),
    }
    let r: Result<u8, u32> = Err(7);
    match r.res_convert(|e| format!("code {}", e)) {
        Err(ProxyError::Custom(m)) => assert_eq!(m, "code 7"),
        _ => panic!("expected an error"),
    }
    let r: Result<u8, u32> = Err(12);
    match r.res_auto_convert() {
        Err(ProxyError::Custom(m)) => assert_eq!(m, "12"),
        _ => panic!("expected an error"),
    }
    let ok: Result<u8, u32> = Ok(1);
    assert!(matches!(ok.res_auto_convert(), Ok(1)));
}

#[test]
fn server_reads_a_client_handshake() {
    let proxy = TcpProxy::new(vec![("server", Rc4Cipher::new(b"123a"))], 0);
    let (bytes, mut client) = proxy.handshake(0, &(b"example.org".to_vec(), 443)).unwrap();

    let mut server = Rc4Cipher::new(b"123a");
    assert!(check_magic_code(&server, &bytes[0..4]));
    assert!(!check_magic_code(&server, &[0xA5, 0xC8, 0x78, 0xF0]));
    assert!(!check_magic_code(&Rc4Cipher::new(b"other"), &bytes[0..4]));
    assert!(!check_magic_code(&server, &bytes[0..3]));

    let len = u16::from_be_bytes([bytes[4], bytes[5]]) as usize;
    assert_eq!(len, bytes.len() - 6);
    let (host, port) = open_target(&mut server, &bytes[6..]).unwrap();
    assert_eq!(host, "example.org");
    assert_eq!(port, 443);

    // the tunnel goes on with both ciphers at the same offset
    let mut x = vec![0u8; 4];
    let mut y = vec![0u8; 4];
    rc4_crypto(b"data", &mut x, &mut client).unwrap();
    rc4_crypto(&x, &mut y, &mut server).unwrap();
    assert_eq!(y, b"data".to_vec());
}
