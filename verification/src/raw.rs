use vstd::prelude::*;
use vstd::string::*;

verus! {

/// The text of a keep-alive HTTP/1.1 GET request for `path` on `host`.
pub open spec fn keep_alive_get(host: Seq<char>, path: Seq<char>) -> Seq<char> {
    "GET "@ + path + " HTTP/1.1\r\nHost: "@ + host + "\r\nConnection: keep-alive\r\n\r\n"@
}

/// The GET request that a raw connection pool sends again and again.
pub fn keep_alive_get_request(host: &str, path: &str) -> (r: String)
    ensures
        r@ == keep_alive_get(host@, path@),
{
    let mut r = String::from_str("GET ");
    r.append(path);
    r.append(" HTTP/1.1\r\nHost: ");
    r.append(host);
    r.append("\r\nConnection: keep-alive\r\n\r\n");
    assert(r@ =~= keep_alive_get(host@, path@));
    r
}

/// The status code that `httparse` reads from the start of an HTTP response,
/// parsed with room for 32 headers (`None` when the status line is not there).
pub uninterp spec fn httparse_status(buf: Seq<u8>) -> Option<u16>;

/// Trusted: calls `httparse::Response::parse` on `buf` with 32 header slots
/// and returns the `code` it filled in, whether or not the rest of the response
/// parsed. The code is set only after the version and the status code have
/// been read, so an empty buffer leaves it unset.
#[verifier::external_body]
fn response_status(buf: &[u8]) -> (code: Option<u16>)
    ensures
        code == httparse_status(buf@),
        buf@.len() == 0 ==> code is None,
{
    let mut headers = [httparse::EMPTY_HEADER; 32];
    let mut response = httparse::Response::new(&mut headers);
    let _ = response.parse(buf);
    response.code
}

/// Whether the bytes read back hold a response with status 200.
pub fn response_ok(buf: &[u8]) -> (ok: bool)
    ensures
        ok == (httparse_status(buf@) == Some(200u16)),
        buf@.len() == 0 ==> !ok,
{
    match response_status(buf) {
        Some(code) => code == 200,
        None => false,
    }
}

} // verus!
