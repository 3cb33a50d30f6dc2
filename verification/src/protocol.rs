//! What client and server exchange: requests, responses, and the framing of
//! each message as a 4-byte big-endian length followed by the body.
use vstd::prelude::*;
use crate::error::TransactionError;
use crate::validator::VerificationTask;

verus! {

/// The largest body the server accepts.
pub const MAX_FRAME_LEN: usize = 1048576;

/// A request from a client.
#[derive(Debug)]
pub enum ClientRequest {
    Transfer(VerificationTask),
    CreateProfile { name: String, balance: u64, key: [u8; 32] },
    GetBalance { name: String },
    ShutDown,
}

/// The server's answer to a request.
#[derive(Debug)]
pub enum ServerResponse {
    Success,
    Balance(u64),
    Error(String),
    Queued,
}

/// The four big-endian bytes of `x`.
pub open spec fn spec_be_u32(x: u32) -> Seq<u8> {
    seq![
        (x / 0x1000000) as u8,
        (x / 0x10000 % 0x100) as u8,
        (x / 0x100 % 0x100) as u8,
        (x % 0x100) as u8,
    ]
}

/// The number whose big-endian bytes are `b`.
pub open spec fn spec_from_be(b: Seq<u8>) -> int {
    b[0] * 0x1000000 + b[1] * 0x10000 + b[2] * 0x100 + b[3]
}

/// The header announcing a body of `len` bytes: the length truncated to
/// its low 32 bits, in big-endian order.
pub fn frame_header(len: usize) -> (h: [u8; 4])
    ensures
        h@ == spec_be_u32(len as u32),
{
    let x: u32 = len as u32;
    let h: [u8; 4] = [
        (x / 0x1000000) as u8,
        (x / 0x10000 % 0x100) as u8,
        (x / 0x100 % 0x100) as u8,
        (x % 0x100) as u8,
    ];
    assert(h@ =~= spec_be_u32(x));
    h
}

/// A whole message: header, then body.
pub fn encode_frame(body: &[u8]) -> (f: Vec<u8>)
    ensures
        f@ == spec_be_u32(body@.len() as u32) + body@,
{
    let h = frame_header(body.len());
    let mut f: Vec<u8> = Vec::new();
    f.push(h[0]);
    f.push(h[1]);
    f.push(h[2]);
    f.push(h[3]);
    let mut i: usize = 0;
    while i < body.len()
        invariant
            0 <= i <= body@.len(),
            f@ == h@ + body@.take(i as int),
        decreases body@.len() - i,
    {
        f.push(body[i]);
        i += 1;
        assert(body@.take(i as int) =~= body@.take(i - 1).push(body@[i - 1]));
    }
    assert(body@.take(body@.len() as int) =~= body@);
    f
}

/// The body length a header announces, or `None` when it exceeds `MAX_FRAME_LEN`.
pub fn frame_length(header: &[u8; 4]) -> (r: Option<usize>)
    ensures
        spec_from_be(header@) > MAX_FRAME_LEN ==> r is None,
        spec_from_be(header@) <= MAX_FRAME_LEN ==> r == Some(spec_from_be(header@) as usize),
{
    let n: u64 = header[0] as u64 * 0x1000000 + header[1] as u64 * 0x10000 + header[2] as u64
        * 0x100 + header[3] as u64;
    if n > MAX_FRAME_LEN as u64 {
        None
    } else {
        Some(n as usize)
    }
}

/// Reading a header back gives the number it was written from.
pub proof fn lemma_be_u32_roundtrip(x: u32)
    ensures
        spec_from_be(spec_be_u32(x)) == x,
{
    let b = spec_be_u32(x);
    assert(x / 0x1000000 < 0x100) by (nonlinear_arith);
    assert(b[0] == x / 0x1000000);
    assert(b[1] == x / 0x10000 % 0x100);
    assert(b[2] == x / 0x100 % 0x100);
    assert(b[3] == x % 0x100);
    assert(x == (x / 0x1000000) * 0x1000000 + (x / 0x10000 % 0x100) * 0x10000 + (x / 0x100
        % 0x100) * 0x100 + x % 0x100) by (nonlinear_arith);
}

/// A message of acceptable size is announced by its header as exactly its
/// length, and is accepted.
pub proof fn law_frame_header_roundtrip(len: usize)
    requires
        len <= MAX_FRAME_LEN,
    ensures
        spec_from_be(spec_be_u32(len as u32)) == len,
{
    lemma_be_u32_roundtrip(len as u32);
}

/// The response to a transfer or to an account creation: success, or the
/// error's message.
pub fn response_for(r: Result<(), TransactionError>) -> (resp: ServerResponse)
    ensures
        match r {
            Ok(()) => resp is Success,
            Err(e) => resp matches ServerResponse::Error(m) && m@ == e.spec_message(),
        },
{
    match r {
        Ok(()) => ServerResponse::Success,
        Err(e) => ServerResponse::Error(e.message()),
    }
}

/// The response to a balance query: the balance, or the error's message.
pub fn balance_response(r: Result<u64, TransactionError>) -> (resp: ServerResponse)
    ensures
        match r {
            Ok(b) => resp == ServerResponse::Balance(b),
            Err(e) => resp matches ServerResponse::Error(m) && m@ == e.spec_message(),
        },
{
    match r {
        Ok(b) => ServerResponse::Balance(b),
        Err(e) => ServerResponse::Error(e.message()),
    }
}

} // verus!
