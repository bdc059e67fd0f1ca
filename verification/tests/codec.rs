use rs_proxy::cipher::Rc4Cipher;
use rs_proxy::commons::tcp_mux;
use rs_proxy::commons::tcpmux_comm::{
    decode, encode_connect_msg, encode_data_msg, encode_disconnect_msg, Msg, MsgReader, MsgWriter,
};
use rs_proxy::commons::{encrypted_magic_code, rc4_crypto};
use rs_proxy::error::ProxyError;

#[test]
fn connect_msg_layout() {
    let bytes = encode_connect_msg((b"example.com".to_vec(), 443), 0x01020304);
    let mut expected = vec![0x00, 0x01, 0x02, 0x03, 0x04];
    expected.extend_from_slice(b"example.com");
    expected.extend_from_slice(&[0x01, 0xBB]);
    assert_eq!(bytes, expected);
}

#[test]
fn disconnect_msg_layout() {
    assert_eq!(encode_disconnect_msg(0xA0B0C0D0), vec![0x01, 0xA0, 0xB0, 0xC0, 0xD0]);
}

#[test]
fn data_msg_layout() {
    assert_eq!(encode_data_msg(7, &[9, 8, 7]), vec![0x03, 0, 0, 0, 7, 9, 8, 7]);
}

#[test]
fn decode_gives_back_connect() {
    let bytes = Msg::Connect(42, (b"host".to_vec(), 8080)).encode();
    match decode(&bytes) {
        Ok(Msg::Connect(id, (host, port))) => {
            assert_eq!(id, 42);
            assert_eq!(host, b"host".to_vec());
            assert_eq!(port, 8080);
        }
        _ => panic!("not a connect message"),
    }
}

#[test]
fn decode_gives_back_data_and_disconnect() {
    let bytes = Msg::Data(5, &[1, 2, 3]).encode();
    match decode(&bytes) {
        Ok(Msg::Data(5, data)) => assert_eq!(data, &[1, 2, 3]),
        _ => panic!("not a data message"),
    }
    let bytes = Msg::Disconnect(77).encode();
    assert!(matches!(decode(&bytes), Ok(Msg::Disconnect(77))));
}

#[test]
fn decode_rejects_unknown_type() {
    assert!(matches!(decode(&[0x09, 0, 0, 0, 1]), Err(ProxyError::Message)));
}

#[test]
fn decode_connect_with_empty_host() {
    match decode(&[0x00, 0, 0, 0, 1, 0x00, 0x50]) {
        Ok(Msg::Connect(1, (host, 80))) => assert!(host.is_empty()),
        _ => panic!("not a connect message"),
    }
}

#[test]
fn rc4_matches_known_vector() {
    let mut cipher = Rc4Cipher::new(b"Key");
    let mut out = vec![0u8; 9];
    let n = rc4_crypto(b"Plaintext", &mut out, &mut cipher).unwrap();
    assert_eq!(n, 9);
    assert_eq!(out, vec![0xBB, 0xF3, 0x16, 0xE8, 0xD9, 0x40, 0xAF, 0x0A, 0xD3]);
}

#[test]
fn rc4_leaves_rest_of_output() {
    let mut cipher = Rc4Cipher::new(b"Wiki");
    let mut out = vec![0xEEu8; 7];
    rc4_crypto(b"pedia", &mut out, &mut cipher).unwrap();
    assert_eq!(out, vec![0x10, 0x21, 0xBF, 0x04, 0x20, 0xEE, 0xEE]);
}

#[test]
fn rc4_stream_continues_across_calls() {
    let mut whole = Rc4Cipher::new(b"Secret");
    let mut out_whole = vec![0u8; 14];
    rc4_crypto(b"Attack at dawn", &mut out_whole, &mut whole).unwrap();
    assert_eq!(
        out_whole,
        vec![0x45, 0xA0, 0x1F, 0x64, 0x5F, 0xC3, 0x5B, 0x38, 0x35, 0x52, 0x54, 0x4B, 0x9B, 0xF5]
    );

    let mut split = Rc4Cipher::new(b"Secret");
    let mut a = vec![0u8; 6];
    let mut b = vec![0u8; 8];
    rc4_crypto(b"Attack", &mut a, &mut split).unwrap();
    rc4_crypto(b" at dawn", &mut b, &mut split).unwrap();
    a.extend_from_slice(&b);
    assert_eq!(a, out_whole);
}

#[test]
fn duplicate_cipher_is_in_same_state() {
    let mut c = Rc4Cipher::new(b"Secret");
    let mut skip = vec![0u8; 3];
    rc4_crypto(b"Att", &mut skip, &mut c).unwrap();
    let mut d = c.duplicate();
    let mut x = vec![0u8; 4];
    let mut y = vec![0u8; 4];
    rc4_crypto(b"ack ", &mut x, &mut c).unwrap();
    rc4_crypto(b"ack ", &mut y, &mut d).unwrap();
    assert_eq!(x, y);
    assert_eq!(x, vec![0x64, 0x5F, 0xC3, 0x5B]);
}

#[test]
fn frame_roundtrip_through_writer_and_reader() {
    let mut writer = MsgWriter::new((), Rc4Cipher::new(b"123a"));
    let mut reader = MsgReader::new((), Rc4Cipher::new(b"123a"));
    for id in 0..3u32 {
        let payload = Msg::Data(id, b"hello world").encode();
        let frame = writer.seal_msg(&payload).unwrap();
        assert_eq!(frame.len(), payload.len() + 2);
        assert_eq!(u16::from_be_bytes([frame[0], frame[1]]) as usize, payload.len());
        assert_ne!(&frame[2..], &payload[..]);
        let opened = reader.open_payload(&frame[2..]).unwrap();
        assert_eq!(opened, payload);
        match decode(&opened) {
            Ok(Msg::Data(got, data)) => {
                assert_eq!(got, id);
                assert_eq!(data, b"hello world");
            }
            _ => panic!("not a data message"),
        }
    }
}

#[test]
fn twin_codec_frames_and_decodes_borrowed_data() {
    let mut writer = tcp_mux::MsgWriter::new((), Rc4Cipher::new(b"k"));
    let mut reader = tcp_mux::MsgReader::new((), Rc4Cipher::new(b"k"));
    let payload = tcp_mux::Msg::Data(9, vec![4, 5]).encode();
    assert_eq!(payload, vec![0x03, 0, 0, 0, 9, 4, 5]);
    let frame = writer.seal_msg(&payload).unwrap();
    let opened = reader.open_payload(&frame[2..]).unwrap();
    match tcp_mux::decode(&opened) {
        Ok(tcp_mux::Msg::RefData(9, data)) => assert_eq!(data, &[4, 5]),
        _ => panic!("not borrowed data"),
    }
    assert_eq!(tcp_mux::encode_disconnect_msg(3), vec![0x01, 0, 0, 0, 3]);
    assert_eq!(tcp_mux::encode_data_msg(3, &[1]), vec![0x03, 0, 0, 0, 3, 1]);
}

#[test]
fn magic_code_does_not_move_cipher() {
    let c = Rc4Cipher::new(b"Key");
    let code = encrypted_magic_code(&c).unwrap();
    let mut fresh = Rc4Cipher::new(b"Key");
    let mut expected = vec![0u8; 4];
    rc4_crypto(&0xA5C878F0u32.to_be_bytes(), &mut expected, &mut fresh).unwrap();
    assert_eq!(code, expected);
    let again = encrypted_magic_code(&c).unwrap();
    assert_eq!(code, again);
}
