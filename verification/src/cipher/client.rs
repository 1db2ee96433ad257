use vstd::prelude::*;

use crate::cipher::params::{base64_url_no_pad, encode_base64_url, params_text};
use crate::cipher::partial::min_int;
use crate::cipher::strategy::{lemma_boxed_roundtrip, BoxedStreamCipher, EncryptionStrategy};
use crate::cipher::suite::{
    applied_in_chunks, create_cipher, lemma_any_chunking, lemma_chacha20_same_state, ChaCha20, StreamCipherExt,
    CIPHER_CHACHA20,
};
use crate::http::head::{common_view, HttpCommon, HttpRequest, HttpResponse};
use crate::http::{HttpUrl, HttpUrlView};

verus! {

/// The header that carries the first bytes of a connection, enciphered.
pub const INITIAL_DATA_HEADER: &'static str = "X-Cache-Key";

/// The status code of a switch to the cipher protocol.
pub const SWITCHING_PROTOCOLS: u16 = 101;

/// Why the server's answer to a cipher handshake was refused.
#[derive(Debug, Clone, Copy, PartialEq, Eq, Structural)]
pub enum HandshakeRefused {
    /// The server answered with another status code than 101.
    UnexpectedStatus(u16),
}

/// The parameters of an enciphered connection: key, nonce, how much of each
/// direction is enciphered, and the cipher's type number.
#[derive(Debug)]
pub struct CipherParams {
    pub key: Vec<u8>,
    pub iv: Vec<u8>,
    pub send_strategy: EncryptionStrategy,
    pub recv_strategy: EncryptionStrategy,
    pub cipher_type: u8,
}

/// Accepts the server's answer only when it switches protocols (status 101).
pub fn check_server_response(res: &HttpResponse) -> (r: Result<(), HandshakeRefused>)
    ensures
        res.status_code == SWITCHING_PROTOCOLS ==> r is Ok,
        res.status_code != SWITCHING_PROTOCOLS ==> r == Err::<(), HandshakeRefused>(HandshakeRefused::UnexpectedStatus(res.status_code)),
{
    if res.status_code == SWITCHING_PROTOCOLS {
        Ok(())
    } else {
        Err(HandshakeRefused::UnexpectedStatus(res.status_code))
    }
}

/// The key that every cipher handshake sends as its WebSocket key.
pub const WEBSOCKET_KEY: &'static str = "dGhlIHNhbXBsZSBub25jZQ==";

/// The headers of the upgrade request that opens an enciphered connection to
/// `host`; the first bytes of the connection, enciphered and in base64, ride
/// in a last header when there are any.
pub open spec fn upgrade_headers(host: Seq<char>, initial: Option<Seq<char>>) -> Seq<(Seq<char>, Seq<char>)> {
    let base = seq![
        ("Connection"@, "Upgrade"@),
        ("Upgrade"@, "WebSocket"@),
        ("Sec-WebSocket-Key"@, WEBSOCKET_KEY@),
        ("Sec-WebSocket-Version"@, "13"@),
        ("Host"@, host),
    ];
    match initial {
        Some(v) => base.push((INITIAL_DATA_HEADER@, v)),
        None => base,
    }
}

/// The upgrade request that opens an enciphered connection to `host`, with
/// the connection's parameters as its path. Non-empty `initial_data` is
/// enciphered with `wr_cipher`, which moves on past it, and sent in base64 in
/// the request's last header.
pub fn connect_request(
    host: &str,
    params: &CipherParams,
    wr_cipher: &mut BoxedStreamCipher,
    initial_data: Vec<u8>,
) -> (r: HttpRequest)
    requires
        old(wr_cipher).valid(),
        old(wr_cipher).can_apply(initial_data@.len()),
    ensures
        r@.method == "GET"@,
        r@.url == (HttpUrlView::PathOnly { path: params_text(params@) }),
        r@.headers == upgrade_headers(
            host@,
            if initial_data@.len() > 0 {
                Some(base64_url_no_pad(old(wr_cipher).applied(initial_data@)))
            } else {
                None
            },
        ),
        initial_data@.len() > 0 ==> *final(wr_cipher) == old(wr_cipher).advanced(initial_data@.len()),
        initial_data@.len() == 0 ==> *final(wr_cipher) == *old(wr_cipher),
{
    let mut headers: Vec<(String, String)> = Vec::new();
    headers.push(("Connection".to_owned(), "Upgrade".to_owned()));
    headers.push(("Upgrade".to_owned(), "WebSocket".to_owned()));
    headers.push(("Sec-WebSocket-Key".to_owned(), WEBSOCKET_KEY.to_owned()));
    headers.push(("Sec-WebSocket-Version".to_owned(), "13".to_owned()));
    headers.push(("Host".to_owned(), host.to_owned()));
    let ghost plain = initial_data@;
    if initial_data.len() > 0 {
        let mut data = initial_data;
        wr_cipher.apply_keystream(&mut data);
        headers.push((INITIAL_DATA_HEADER.to_owned(), encode_base64_url(data.as_slice())));
    }
    let path = params.to_text();
    let r = HttpRequest { common: HttpCommon { headers }, method: "GET".to_owned(), url: HttpUrl::PathOnly { path } };
    proof {
        let initial = if plain.len() > 0 { Some(base64_url_no_pad(old(wr_cipher).applied(plain))) } else { None };
        assert(common_view(&r.common) =~= upgrade_headers(host@, initial));
    }
    r
}

/// Whether `c` is ChaCha20 at the start of the keystream for `key` and `iv`.
pub open spec fn fresh_chacha20(c: ChaCha20, key: Seq<u8>, iv: Seq<u8>) -> bool {
    c.valid() && c.key() == key && c.iv() == iv && c.pos() == 0
}

/// Whether `c` is fresh ChaCha20 for `key` and `iv`, wrapped as `strategy`
/// says.
pub open spec fn wrapped_fresh(strategy: EncryptionStrategy, c: BoxedStreamCipher, key: Seq<u8>, iv: Seq<u8>) -> bool {
    match strategy {
        EncryptionStrategy::Always => c matches BoxedStreamCipher::Full(x) && fresh_chacha20(x, key, iv),
        EncryptionStrategy::FirstN(n) => c matches BoxedStreamCipher::Partial(p) && p.n == n as isize
            && fresh_chacha20(p.inner, key, iv),
        EncryptionStrategy::Never => c is Plain,
    }
}

/// The cipher for what the server sends, once its answer to the upgrade
/// request is in: refused unless the answer switches protocols; else the
/// cipher of the connection's type, key and nonce, wrapped as `recv_strategy`
/// says.
pub fn reading_cipher(
    res: &HttpResponse,
    cipher_type: u8,
    key: &[u8],
    iv: &[u8],
    recv_strategy: EncryptionStrategy,
) -> (r: Result<BoxedStreamCipher, HandshakeRefused>)
    requires
        cipher_type == CIPHER_CHACHA20,
        key@.len() == 32,
        iv@.len() == 12,
        recv_strategy.valid(),
    ensures
        res.status_code != SWITCHING_PROTOCOLS ==> r == Err::<BoxedStreamCipher, HandshakeRefused>(
            HandshakeRefused::UnexpectedStatus(res.status_code),
        ),
        res.status_code == SWITCHING_PROTOCOLS ==> (r matches Ok(c) && wrapped_fresh(recv_strategy, c, key@, iv@)),
{
    match check_server_response(res) {
        Err(e) => Err(e),
        Ok(()) => match create_cipher(cipher_type, key, iv) {
            Ok(c) => Ok(recv_strategy.wrap_cipher(c)),
            Err(_) => {
                proof { assert(false); }
                Err(HandshakeRefused::UnexpectedStatus(res.status_code))
            },
        },
    }
}


/// The two ends of an enciphered connection wrap fresh ChaCha20 for the same
/// key and nonce with the same strategy: what one end enciphers, the other
/// deciphers.
pub proof fn lemma_fresh_pair_roundtrip(
    strategy: EncryptionStrategy,
    sender: BoxedStreamCipher,
    receiver: BoxedStreamCipher,
    key: Seq<u8>,
    iv: Seq<u8>,
    data: Seq<u8>,
)
    requires
        wrapped_fresh(strategy, sender, key, iv),
        wrapped_fresh(strategy, receiver, key, iv),
        sender.can_apply(data.len()),
    ensures
        receiver.applied(sender.applied(data)) == data,
{
    let once = sender.applied(data);
    match (sender, receiver) {
        (BoxedStreamCipher::Full(x), BoxedStreamCipher::Full(y)) => {
            lemma_chacha20_same_state(x, y, once);
        },
        (BoxedStreamCipher::Partial(p), BoxedStreamCipher::Partial(q)) => {
            if p.n > 0 {
                let l = min_int(p.n as int, once.len() as int);
                lemma_chacha20_same_state(p.inner, q.inner, once.take(l));
            }
        },
        _ => {},
    }
    lemma_boxed_roundtrip(sender, data);
}

/// Two ends wrapping fresh ChaCha20 for the same key and nonce with the same
/// strategy are both usable and have the same keystream left.
pub proof fn lemma_fresh_pair_limits(
    strategy: EncryptionStrategy,
    sender: BoxedStreamCipher,
    receiver: BoxedStreamCipher,
    key: Seq<u8>,
    iv: Seq<u8>,
    len: nat,
)
    requires
        wrapped_fresh(strategy, sender, key, iv),
        wrapped_fresh(strategy, receiver, key, iv),
    ensures
        sender.valid(),
        receiver.valid(),
        sender.can_apply(len) == receiver.can_apply(len),
{
    match (sender, receiver) {
        (BoxedStreamCipher::Full(x), BoxedStreamCipher::Full(y)) => {
            lemma_chacha20_same_state(x, y, Seq::empty());
        },
        (BoxedStreamCipher::Partial(p), BoxedStreamCipher::Partial(q)) => {
            lemma_chacha20_same_state(p.inner, q.inner, Seq::empty());
        },
        _ => {},
    }
}

/// Over a connection between two ends that wrap fresh ChaCha20 for the same
/// key and nonce with the same strategy, what one end enciphers, written in
/// any chunks, and deciphered by the other end in any other chunks, comes out
/// as it went in.
pub proof fn lemma_connection_roundtrip(
    strategy: EncryptionStrategy,
    sender: BoxedStreamCipher,
    receiver: BoxedStreamCipher,
    key: Seq<u8>,
    iv: Seq<u8>,
    sent: Seq<Seq<u8>>,
    received: Seq<Seq<u8>>,
)
    requires
        wrapped_fresh(strategy, sender, key, iv),
        wrapped_fresh(strategy, receiver, key, iv),
        sender.can_apply(sent.flatten().len()),
        received.flatten() == applied_in_chunks(sender, sent),
    ensures
        applied_in_chunks(receiver, received) == sent.flatten(),
{
    let data = sent.flatten();
    lemma_fresh_pair_limits(strategy, sender, receiver, key, iv, data.len());
    lemma_any_chunking(sender, sent);
    sender.lemma_applied_len(data);
    lemma_any_chunking(receiver, received);
    lemma_fresh_pair_roundtrip(strategy, sender, receiver, key, iv, data);
}

} // verus!
