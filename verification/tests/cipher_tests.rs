use cjk_proxy::cipher::client::{
    check_server_response, connect_request, reading_cipher, CipherParams, HandshakeRefused, INITIAL_DATA_HEADER,
    WEBSOCKET_KEY,
};
use cjk_proxy::cipher::params::ParamsError;
use cjk_proxy::cipher::server::{
    check_request, initial_data, INVALID_PATH_MESSAGE, INVALID_PATH_RESPONSE, INVALID_TYPE_MESSAGE, INVALID_TYPE_RESPONSE,
};
use cjk_proxy::cipher::noop::new_no_op;
use cjk_proxy::cipher::partial::new_partial_stream_cipher;
use cjk_proxy::cipher::strategy::{BoxedStreamCipher, EncryptionStrategy};
use cjk_proxy::cipher::stream::{CipherStream, WriteOutcome};
use cjk_proxy::cipher::suite::{create_cipher, pick_cipher, CipherError, StreamCipherExt};
use cjk_proxy::http::head::{HttpCommon, HttpRequest, HttpResponse};
use cjk_proxy::http::HttpUrl;

fn key_iv() -> (Vec<u8>, Vec<u8>) {
    ((0u8..32).collect(), (100u8..112).collect())
}

fn params(send: EncryptionStrategy, recv: EncryptionStrategy, cipher_type: u8) -> CipherParams {
    let (key, iv) = key_iv();
    CipherParams { key, iv, send_strategy: send, recv_strategy: recv, cipher_type }
}

#[test]
fn chacha20_roundtrip() {
    let (key, iv) = key_iv();
    let mut enc = create_cipher(1, &key, &iv).unwrap();
    let mut dec = create_cipher(1, &key, &iv).unwrap();
    let plain = b"hello, world".to_vec();
    let mut data = plain.clone();
    enc.apply_keystream(&mut data);
    assert_ne!(data, plain);
    dec.apply_keystream(&mut data);
    assert_eq!(data, plain);
}

#[test]
fn chacha20_rewind_replays_keystream() {
    let (key, iv) = key_iv();
    let mut c = create_cipher(1, &key, &iv).unwrap();
    let mut a = vec![0u8; 10];
    c.apply_keystream(&mut a);
    c.rewind(4);
    let mut b = vec![0u8; 4];
    c.apply_keystream(&mut b);
    assert_eq!(&a[6..], &b[..]);
}

#[test]
fn create_cipher_errors() {
    let (key, iv) = key_iv();
    assert_eq!(create_cipher(2, &key, &iv).unwrap_err(), CipherError::UnknownCipherType(2));
    assert_eq!(create_cipher(1, &key[..31], &iv).unwrap_err(), CipherError::InvalidKeyIv);
    let (t, c, k, v) = pick_cipher();
    assert_eq!(t, 1);
    assert_eq!(k.len(), 32);
    assert_eq!(v.len(), 12);
    assert!(c.will_modify_data());
}

#[test]
fn partial_cipher_covers_first_bytes() {
    let (key, iv) = key_iv();
    let mut p = new_partial_stream_cipher(5, create_cipher(1, &key, &iv).unwrap());
    let mut full = create_cipher(1, &key, &iv).unwrap();
    let mut data = vec![7u8; 8];
    p.apply_keystream(&mut data);
    let mut expect = vec![7u8; 5];
    full.apply_keystream(&mut expect);
    assert_eq!(&data[..5], &expect[..]);
    assert_eq!(&data[5..], &[7u8, 7, 7]);
    assert!(!p.will_modify_data());
    let mut more = vec![1u8, 2, 3];
    p.apply_keystream(&mut more);
    assert_eq!(more, vec![1, 2, 3]);
    assert!(!new_no_op().will_modify_data());
}

#[test]
fn cipher_stream_keeps_in_step() {
    let (key, iv) = key_iv();
    let wr = EncryptionStrategy::Always.wrap_cipher(create_cipher(1, &key, &iv).unwrap());
    let rd = EncryptionStrategy::FirstN(3).wrap_cipher(create_cipher(1, &key, &iv).unwrap());
    let mut s: CipherStream<(), (), BoxedStreamCipher> = CipherStream::new("t".to_string(), (), (), rd, wr);
    let data = b"abcdefgh".to_vec();
    assert!(s.begin_write(&data));
    let first = s.wr_buf.clone();
    assert_eq!(first.len(), 8);
    // Only three bytes went out: the cipher moves back over the other five.
    s.finish_write(WriteOutcome::Written(3));
    assert_eq!(s.last_written_size, Some(3));
    assert!(s.begin_write(&data[3..]));
    assert_eq!(s.wr_buf, first[3..].to_vec());
    s.finish_write(WriteOutcome::Pending);
    assert!(s.begin_write(&data[3..]));
    assert_eq!(s.wr_buf, first[3..].to_vec());

    // The reading side deciphers the first three bytes only.
    let mut dec = create_cipher(1, &key, &iv).unwrap();
    let mut buf = first.clone();
    s.after_read(&mut buf, 8);
    let mut expect = first[..3].to_vec();
    dec.apply_keystream(&mut expect);
    assert_eq!(&buf[..3], &expect[..]);
    assert_eq!(&buf[3..], &first[3..]);
    let mut buf2 = vec![9u8; 2];
    s.after_read(&mut buf2, 2);
    assert_eq!(buf2, vec![9, 9]);
    assert!(s.rd_cipher.is_none());
}

#[test]
fn server_response_must_switch_protocols() {
    let ok = HttpResponse { common: HttpCommon { headers: vec![] }, status_code: 101 };
    assert!(check_server_response(&ok).is_ok());
    let bad = HttpResponse { common: HttpCommon { headers: vec![] }, status_code: 200 };
    assert_eq!(check_server_response(&bad).unwrap_err(), HandshakeRefused::UnexpectedStatus(200));
}

#[test]
fn upgrade_request_carries_enciphered_initial_data() {

    let (key, iv) = key_iv();
    let mut wr = EncryptionStrategy::Always.wrap_cipher(create_cipher(1, &key, &iv).unwrap());
    let p = params(EncryptionStrategy::Always, EncryptionStrategy::Never, 1);
    let req = connect_request("example.com", &p, &mut wr, b"hello".to_vec());
    assert_eq!(req.method, "GET");
    assert!(matches!(&req.url, HttpUrl::PathOnly { path } if *path == p.to_text()));
    let names: Vec<&str> = req.common.headers.iter().map(|(n, _)| n.as_str()).collect();
    assert_eq!(
        names,
        vec!["Connection", "Upgrade", "Sec-WebSocket-Key", "Sec-WebSocket-Version", "Host", INITIAL_DATA_HEADER]
    );
    assert_eq!(req.common.headers[2].1, WEBSOCKET_KEY);
    assert_eq!(req.common.headers[4].1, "example.com");
    // The header holds the enciphered bytes in URL-safe base64 without padding.
    let mut sent = base64::decode_config(&req.common.headers[5].1, base64::URL_SAFE_NO_PAD).unwrap();
    assert_ne!(sent, b"hello".to_vec());
    let mut dec = create_cipher(1, &key, &iv).unwrap();
    dec.apply_keystream(&mut sent);
    assert_eq!(sent, b"hello".to_vec());
    // The writing cipher moved on past the initial data.
    let mut next = vec![0u8; 3];
    wr.apply_keystream(&mut next);
    let mut reference = vec![0u8; 8];
    create_cipher(1, &key, &iv).unwrap().apply_keystream(&mut reference);
    assert_eq!(next, reference[5..].to_vec());
}

#[test]
fn upgrade_request_base64_text() {
    let mut plain = BoxedStreamCipher::Plain(new_no_op());
    let p = params(EncryptionStrategy::Never, EncryptionStrategy::Never, 1);
    let req = connect_request("h", &p, &mut plain, b"hello?>".to_vec());
    assert_eq!(req.common.headers[5].1, "aGVsbG8_Pg");
    let empty = connect_request("h", &p, &mut plain, Vec::new());
    assert_eq!(empty.common.headers.len(), 5);
}

#[test]
fn reading_cipher_follows_strategy() {
    let (key, iv) = key_iv();
    let ok = HttpResponse { common: HttpCommon { headers: vec![] }, status_code: 101 };
    let denied = HttpResponse { common: HttpCommon { headers: vec![] }, status_code: 403 };
    assert!(matches!(
        reading_cipher(&denied, 1, &key, &iv, EncryptionStrategy::Always),
        Err(HandshakeRefused::UnexpectedStatus(403))
    ));
    assert!(matches!(reading_cipher(&ok, 1, &key, &iv, EncryptionStrategy::Always), Ok(BoxedStreamCipher::Full(_))));
    assert!(matches!(
        reading_cipher(&ok, 1, &key, &iv, EncryptionStrategy::FirstN(5)),
        Ok(BoxedStreamCipher::Partial(_))
    ));
    assert!(matches!(reading_cipher(&ok, 1, &key, &iv, EncryptionStrategy::Never), Ok(BoxedStreamCipher::Plain(_))));
}

#[test]
fn both_ends_agree_for_each_strategy() {
    let (key, iv) = key_iv();
    for strategy in [EncryptionStrategy::Always, EncryptionStrategy::FirstN(3), EncryptionStrategy::Never] {
        let mut sender = strategy.wrap_cipher(create_cipher(1, &key, &iv).unwrap());
        let mut receiver = strategy.wrap_cipher(create_cipher(1, &key, &iv).unwrap());
        let mut data = b"hello, world".to_vec();
        sender.apply_keystream(&mut data);
        match strategy {
            EncryptionStrategy::Never => assert_eq!(data, b"hello, world".to_vec()),
            EncryptionStrategy::FirstN(_) => {
                assert_ne!(&data[..3], b"hel");
                assert_eq!(&data[3..], b"lo, world");
            }
            EncryptionStrategy::Always => assert_ne!(&data[3..], b"lo, world"),
        }
        receiver.apply_keystream(&mut data);
        assert_eq!(data, b"hello, world".to_vec());
    }
}

#[test]
fn params_path_key_in_url_safe_base64() {
    let path = |key: &[u8]| {
        CipherParams {
            key: key.to_vec(),
            iv: Vec::new(),
            send_strategy: EncryptionStrategy::Always,
            recv_strategy: EncryptionStrategy::Always,
            cipher_type: 1,
        }
        .to_text()
    };
    assert_eq!(path(b""), "///always/always/1");
    assert_eq!(path(b"f"), "/Zg//always/always/1");
    assert_eq!(path(b"fo"), "/Zm8//always/always/1");
    assert_eq!(path(b"foo"), "/Zm9v//always/always/1");
    assert_eq!(path(b"foob"), "/Zm9vYg//always/always/1");
    assert_eq!(path(&[0xfb, 0xff, 0xbf]), "/-_-_//always/always/1");
}

#[test]
fn strategy_text_roundtrip() {
    for s in [EncryptionStrategy::Always, EncryptionStrategy::Never, EncryptionStrategy::FirstN(1), EncryptionStrategy::FirstN(4096)] {
        let t: Vec<char> = s.to_text().chars().collect();
        assert_eq!(EncryptionStrategy::parse(&t), Some(s));
    }
    assert_eq!(EncryptionStrategy::FirstN(50).to_text(), "50");
    assert_eq!(EncryptionStrategy::Always.to_text(), "always");
    let zero: Vec<char> = "0".chars().collect();
    assert_eq!(EncryptionStrategy::parse(&zero), None);
    let word: Vec<char> = "sometimes".chars().collect();
    assert_eq!(EncryptionStrategy::parse(&word), None);
}

#[test]
fn params_path_text() {
    let p = CipherParams {
        key: b"foo".to_vec(),
        iv: vec![0xfb, 0xff],
        send_strategy: EncryptionStrategy::FirstN(5),
        recv_strategy: EncryptionStrategy::Always,
        cipher_type: 1,
    };
    assert_eq!(p.to_text(), "/Zm9v/-_8/5/always/1");
}

#[test]
fn params_path_roundtrip() {
    let p = params(EncryptionStrategy::FirstN(50), EncryptionStrategy::Never, 1);
    let text = p.to_text();
    let q = CipherParams::from_str(&text).unwrap();
    assert_eq!(q.key, p.key);
    assert_eq!(q.iv, p.iv);
    assert_eq!(q.send_strategy, p.send_strategy);
    assert_eq!(q.recv_strategy, p.recv_strategy);
    assert_eq!(q.cipher_type, p.cipher_type);
}

#[test]
fn params_path_errors() {
    assert!(matches!(CipherParams::from_str("/a/b/always/never"), Err(ParamsError::MissingPart)));
    assert!(matches!(CipherParams::from_str(""), Err(ParamsError::MissingPart)));
    assert!(matches!(CipherParams::from_str("/a/Zg/always/never/1"), Err(ParamsError::InvalidKey)));
    assert!(matches!(CipherParams::from_str("/Zg/!!/always/never/1"), Err(ParamsError::InvalidIv)));
    assert!(matches!(CipherParams::from_str("/Zg/Zg/0/never/1"), Err(ParamsError::InvalidSendStrategy)));
    assert!(matches!(CipherParams::from_str("/Zg/Zg/always/x/1"), Err(ParamsError::InvalidRecvStrategy)));
    assert!(matches!(CipherParams::from_str("/Zg/Zg/always/never/256"), Err(ParamsError::InvalidCipherType)));
    // Anything before the first slash is skipped, pieces after the sixth are ignored.
    let q = CipherParams::from_str("x/Zg/Zm8/3/never/+7/extra").unwrap();
    assert_eq!(q.key, b"f".to_vec());
    assert_eq!(q.iv, b"fo".to_vec());
    assert_eq!(q.send_strategy, EncryptionStrategy::FirstN(3));
    assert_eq!(q.cipher_type, 7);
}

#[test]
fn server_checks_request_path() {
    let bad = check_request("/nothing");
    assert!(matches!(bad, Err((a, b)) if a == INVALID_PATH_RESPONSE && b == INVALID_PATH_MESSAGE));
    assert_eq!(INVALID_PATH_RESPONSE, "HTTP/1.1 404 Not found\r\n\r\n");
    assert_eq!(INVALID_TYPE_RESPONSE, "HTTP/1.1 401 Invalid type\r\n\r\n");
    let wrong_type = params(EncryptionStrategy::Always, EncryptionStrategy::Always, 2).to_text();
    assert!(matches!(check_request(&wrong_type), Err((a, b)) if a == INVALID_TYPE_RESPONSE && b == INVALID_TYPE_MESSAGE));
    let short_key = CipherParams {
        key: vec![1, 2, 3],
        iv: vec![0; 12],
        send_strategy: EncryptionStrategy::Always,
        recv_strategy: EncryptionStrategy::Always,
        cipher_type: 1,
    }
    .to_text();
    assert!(matches!(check_request(&short_key), Err((a, _)) if a == INVALID_TYPE_RESPONSE));
}

#[test]
fn client_and_server_agree_on_ciphers() {
    let (key, iv) = key_iv();
    let p = params(EncryptionStrategy::FirstN(5), EncryptionStrategy::Always, 1);
    let (mut server_rd, mut server_wr) = check_request(&p.to_text()).unwrap();
    assert!(matches!(server_rd, BoxedStreamCipher::Partial(_)));
    assert!(matches!(server_wr, BoxedStreamCipher::Full(_)));
    // What the client sends, enciphered on its first five bytes, the server deciphers.
    let mut client_wr = EncryptionStrategy::FirstN(5).wrap_cipher(create_cipher(1, &key, &iv).unwrap());
    let mut data = b"hello, world".to_vec();
    client_wr.apply_keystream(&mut data);
    assert_eq!(&data[5..], b", world");
    server_rd.apply_keystream(&mut data);
    assert_eq!(data, b"hello, world".to_vec());
    // What the server sends back, the client deciphers.
    let mut back = b"reply".to_vec();
    server_wr.apply_keystream(&mut back);
    let mut client_rd = EncryptionStrategy::Always.wrap_cipher(create_cipher(1, &key, &iv).unwrap());
    client_rd.apply_keystream(&mut back);
    assert_eq!(back, b"reply".to_vec());
}

#[test]
fn partial_cipher_any_chunking() {
    let (key, iv) = key_iv();
    let data: Vec<u8> = (0u8..40).collect();
    let mut whole = data.clone();
    EncryptionStrategy::FirstN(13).wrap_cipher(create_cipher(1, &key, &iv).unwrap()).apply_keystream(&mut whole);
    let mut c = EncryptionStrategy::FirstN(13).wrap_cipher(create_cipher(1, &key, &iv).unwrap());
    let mut out = Vec::new();
    for chunk in [&data[0..3], &data[3..3], &data[3..20], &data[20..40]] {
        let mut piece = chunk.to_vec();
        c.apply_keystream(&mut piece);
        out.extend(piece);
    }
    assert_eq!(out, whole);
    assert_eq!(&whole[13..], &data[13..]);
}

#[test]
fn server_reads_initial_data_header() {
    let with = |headers: Vec<(String, String)>| HttpRequest {
        common: HttpCommon { headers },
        method: "GET".to_string(),
        url: HttpUrl::PathOnly { path: "/".to_string() },
    };
    let none = with(vec![("Host".to_string(), "h".to_string())]);
    assert_eq!(initial_data(&none), Some(Vec::new()));
    let some = with(vec![("x-cache-key".to_string(), "aGVsbG8_Pg".to_string())]);
    assert_eq!(initial_data(&some), Some(b"hello?>".to_vec()));
    let bad = with(vec![(INITIAL_DATA_HEADER.to_string(), "a".to_string())]);
    assert_eq!(initial_data(&bad), None);
}
