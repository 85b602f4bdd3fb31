//! What the board's fixed files hold: the temperature register and the help
//! text.
use vstd::prelude::*;
use vstd::utf8::{valid_utf8, decode_utf8};

use crate::directory::{be_u32, read_be_u32, utf8_text};
use crate::error::Error;

verus! {

/// The bit pattern of the temperature: the first four bytes read from the
/// temperature file, big-endian, or `None` when fewer came.
pub fn temperature_bits(bytes: &[u8]) -> (r: Option<u32>)
    ensures
        bytes@.len() < 4 ==> r is None,
        bytes@.len() >= 4 ==> r == Some(be_u32(bytes@[0], bytes@[1], bytes@[2], bytes@[3])),
{
    if bytes.len() < 4 {
        None
    } else {
        Some(read_be_u32(bytes, 0))
    }
}

/// The help text: the bytes read from the help file, which must be UTF-8.
pub fn help_text(bytes: &[u8]) -> (r: Result<String, Error>)
    ensures
        r is Ok <==> valid_utf8(bytes@),
        r matches Ok(s) ==> s@ == decode_utf8(bytes@),
        r is Err ==> r == Err::<String, Error>(Error::Decode),
{
    match utf8_text(bytes) {
        Some(s) => Ok(s),
        None => Err(Error::Decode),
    }
}

} // verus!
