//! The server's side of the cipher handshake: the ciphers a client's upgrade
//! request asks for, or the answer that refuses it.
use vstd::prelude::*;

use crate::cipher::client::{wrapped_fresh, CipherParams, INITIAL_DATA_HEADER};
use crate::http::head::{common_view, find_header, HttpRequest};
use crate::cipher::params::{
    base64_url_decode, decode_base64_url, params_parse_spec, params_text, CipherParamsView, ParamsError,
};
use crate::cipher::strategy::BoxedStreamCipher;
use crate::cipher::suite::{create_cipher, CIPHER_CHACHA20};

verus! {

/// The answer to a request whose path holds no parameters.
pub const INVALID_PATH_RESPONSE: &'static str = "HTTP/1.1 404 Not found\r\n\r\n";

/// Why a request whose path holds no parameters was refused.
pub const INVALID_PATH_MESSAGE: &'static str = "Invalid PATH";

/// The answer to a request for a cipher that cannot be made.
pub const INVALID_TYPE_RESPONSE: &'static str = "HTTP/1.1 401 Invalid type\r\n\r\n";

/// Why a request for a cipher that cannot be made was refused.
pub const INVALID_TYPE_MESSAGE: &'static str = "Invalid cipher type";

/// The ciphers for an upgrade request at `path`: one for what the client
/// sends, wrapped as its sending strategy says, and one for what goes back to
/// it, wrapped as its receiving strategy says, both fresh ChaCha20 for the
/// requested key and nonce. A path that holds no parameters is answered with
/// a 404; a cipher type other than ChaCha20, or a key or nonce of the wrong
/// length, with a 401. Each refusal comes with the answer to send and why.
/// The path a client writes for parameters whose strategies can be used is
/// read as those parameters.
pub fn check_request(path: &str) -> (r: Result<(BoxedStreamCipher, BoxedStreamCipher), (&'static str, &'static str)>)
    ensures
        match params_parse_spec(path@) {
            Err(_) => r matches Err((a, b)) && a@ == INVALID_PATH_RESPONSE@ && b@ == INVALID_PATH_MESSAGE@,
            Ok(p) => if p.cipher_type == CIPHER_CHACHA20 && p.key.len() == 32 && p.iv.len() == 12 {
                r matches Ok((rd, wr)) && wrapped_fresh(p.send_strategy, rd, p.key, p.iv) && wrapped_fresh(
                    p.recv_strategy,
                    wr,
                    p.key,
                    p.iv,
                )
            } else {
                r matches Err((a, b)) && a@ == INVALID_TYPE_RESPONSE@ && b@ == INVALID_TYPE_MESSAGE@
            },
        },
        forall|p: CipherParamsView|
            p.send_strategy.valid() && p.recv_strategy.valid() && #[trigger] params_text(p) == path@
                ==> params_parse_spec(path@) == Ok::<CipherParamsView, ParamsError>(p),
{
    let params = match CipherParams::from_str(path) {
        Ok(p) => p,
        Err(_) => return Err((INVALID_PATH_RESPONSE, INVALID_PATH_MESSAGE)),
    };
    let rd = match create_cipher(params.cipher_type, params.key.as_slice(), params.iv.as_slice()) {
        Ok(c) => c,
        Err(_) => return Err((INVALID_TYPE_RESPONSE, INVALID_TYPE_MESSAGE)),
    };
    let wr = match create_cipher(params.cipher_type, params.key.as_slice(), params.iv.as_slice()) {
        Ok(c) => c,
        Err(_) => return Err((INVALID_TYPE_RESPONSE, INVALID_TYPE_MESSAGE)),
    };
    proof {
        let v = params_parse_spec(path@);
        assert(v matches Ok(p) && p.send_strategy.valid() && p.recv_strategy.valid()) by {
            crate::cipher::params::lemma_parsed_strategies_valid(path@);
        }
    }
    Ok((params.send_strategy.wrap_cipher(rd), params.recv_strategy.wrap_cipher(wr)))
}

/// The first bytes of the connection that ride in the upgrade request's
/// initial-data header: none without the header, else what its URL-safe
/// base64 stands for, or `None` when it is no such text.
pub fn initial_data(req: &HttpRequest) -> (r: Option<Vec<u8>>)
    ensures
        match find_header(common_view(&req.common), INITIAL_DATA_HEADER@) {
            None => r matches Some(v) && v@.len() == 0,
            Some(t) => match base64_url_decode(t) {
                Some(d) => r matches Some(v) && v@ == d,
                None => r is None,
            },
        },
{
    match req.common.get_header(INITIAL_DATA_HEADER) {
        None => Some(Vec::new()),
        Some(t) => decode_base64_url(t),
    }
}

} // verus!
