//! The addressing convention: canonical path strings for registers, flash and
//! the fixed board files, with offsets and counts in 4-byte words.
use vstd::prelude::*;
use vstd::string::*;

use crate::error::Error;

verus! {

/// Lowercase hexadecimal digit for a value below sixteen.
pub open spec fn hex_char(d: nat) -> char {
    seq!['0', '1', '2', '3', '4', '5', '6', '7', '8', '9', 'a', 'b', 'c', 'd', 'e', 'f'][d as int]
}

/// Lowercase hexadecimal rendering of `n`, without prefix or leading zeros.
pub open spec fn hex(n: nat) -> Seq<char>
    decreases n,
{
    if n < 16 {
        seq![hex_char(n)]
    } else {
        hex(n / 16).push(hex_char(n % 16))
    }
}

/// Appends the hexadecimal rendering of `n` to `s`.
fn push_hex(s: &mut String, n: usize)
    ensures
        final(s)@ == old(s)@ + hex(n as nat),
    decreases n,
{
    if n >= 16 {
        push_hex(s, n / 16);
    }
    let digits = "0123456789abcdef";
    proof {
        reveal_strlit("0123456789abcdef");
    }
    let d: usize = n % 16;
    let digit = digits.substring_ascii(d, d + 1);
    s.append(digit);
    assert(digit@ =~= seq![hex_char(d as nat)]);
    assert(s@ =~= old(s)@ + hex(n as nat));
}

/// Path of the board's temperature register.
pub const TEMP_PATH: &'static str = "/temp";

/// Path of the board's help text.
pub const HELP_PATH: &'static str = "/help";

/// Path of the board's device directory.
pub const LISTDEV_PATH: &'static str = "/listdev";

/// `/dev/`.
pub open spec fn dev_prefix() -> Seq<char> {
    seq!['/', 'd', 'e', 'v', '/']
}

/// `/flash`.
pub open spec fn flash_prefix() -> Seq<char> {
    seq!['/', 'f', 'l', 'a', 's', 'h']
}

/// `/dev/<name>.<offset>`: where a write to a register starts.
pub open spec fn dev_write_path(name: Seq<char>, offset: nat) -> Seq<char> {
    dev_prefix() + name + seq!['.'] + hex(offset)
}

/// `/dev/<name>.<offset>.<count>`: a read of `count` words (all words when zero).
pub open spec fn dev_read_path(name: Seq<char>, offset: nat, count: nat) -> Seq<char> {
    dev_write_path(name, offset) + seq!['.'] + hex(count)
}

/// `/flash.<offset>.<count>`.
pub open spec fn flash_read_path(offset: nat, count: nat) -> Seq<char> {
    flash_prefix() + seq!['.'] + hex(offset) + seq!['.'] + hex(count)
}

/// Path that reads `n` words of register `device` starting at word `offset`;
/// `n == 0` asks for every byte the register holds.
pub fn read_device_path(device: &str, offset: usize, n: usize) -> (r: String)
    ensures
        r@ == dev_read_path(device@, offset as nat, n as nat),
{
    let mut r = write_device_path(device, offset);
    proof {
        reveal_strlit(".");
    }
    r.append(".");
    push_hex(&mut r, n);
    r
}

/// Path that writes register `device` starting at word `offset`; the size of
/// the write is the size of the transfer.
pub fn write_device_path(device: &str, offset: usize) -> (r: String)
    ensures
        r@ == dev_write_path(device@, offset as nat),
{
    proof {
        reveal_strlit("/dev/");
        reveal_strlit(".");
    }
    let mut r = String::from_str("/dev/");
    r.append(device);
    r.append(".");
    push_hex(&mut r, offset);
    r
}

/// Path that reads `n` words of flash starting at word `offset`.
pub fn read_flash_path(offset: usize, n: usize) -> (r: String)
    ensures
        r@ == flash_read_path(offset as nat, n as nat),
{
    proof {
        reveal_strlit("/flash.");
        reveal_strlit(".");
    }
    let mut r = String::from_str("/flash.");
    push_hex(&mut r, offset);
    r.append(".");
    push_hex(&mut r, n);
    r
}

/// A read addresses the same register and word as the write with the same name
/// and offset: its path is the write path followed by the word count.
pub proof fn lemma_read_path_extends_write_path(name: Seq<char>, offset: nat, count: nat)
    ensures
        dev_read_path(name, offset, count).subrange(0, dev_write_path(name, offset).len() as int)
            == dev_write_path(name, offset),
        dev_read_path(name, offset, count).len() > dev_write_path(name, offset).len(),
{
    let w = dev_write_path(name, offset);
    assert(dev_read_path(name, offset, count).subrange(0, w.len() as int) =~= w);
}

/// Whether `got` bytes answer a read of `words` words: any size when `words`
/// is zero, exactly four bytes per word otherwise.
pub open spec fn size_ok(words: nat, got: nat) -> bool {
    words == 0 || got == 4 * words
}

/// Checks the bytes returned by a read of `words` words against the count
/// asked for.
pub fn check_size(words: usize, bytes: Vec<u8>) -> (r: Result<Vec<u8>, Error>)
    ensures
        words == 0 ==> r == Ok::<Vec<u8>, Error>(bytes),
        words > 0 && bytes@.len() != 4 * words ==> r == Err::<Vec<u8>, Error>(
            Error::SizeMismatch { words, got: bytes@.len() as usize },
        ),
        words > 0 && bytes@.len() == 4 * words ==> r == Ok::<Vec<u8>, Error>(bytes),
        r is Ok <==> size_ok(words as nat, bytes@.len()),
{
    if words == 0 {
        return Ok(bytes);
    }
    let got = bytes.len();
    if got % 4 != 0 || got / 4 != words {
        Err(Error::SizeMismatch { words, got })
    } else {
        Ok(bytes)
    }
}

} // verus!
