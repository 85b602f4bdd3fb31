//! Wire framing of the transfer protocol: requests, data blocks,
//! acknowledgments and error packets, each led by a big-endian opcode.
use vstd::prelude::*;
use vstd::string::*;
use vstd::utf8::{valid_utf8, decode_utf8};

use crate::directory::{find_nul, utf8_text};

verus! {

/// Opcode of a read request.
pub const OP_READ: u16 = 1;
/// Opcode of a write request.
pub const OP_WRITE: u16 = 2;
/// Opcode of a data block.
pub const OP_DATA: u16 = 3;
/// Opcode of an acknowledgment.
pub const OP_ACK: u16 = 4;
/// Opcode of an error packet.
pub const OP_ERROR: u16 = 5;

/// How the payload of a transfer is framed.
#[derive(Debug, Copy, Clone, PartialEq, Eq, Structural)]
pub enum Mode {
    /// Bytes travel unmodified.
    Octet,
    /// Text with network line endings, normalised on receipt.
    NetAscii,
}

/// The mode's name as it stands in a request.
pub open spec fn mode_name(m: Mode) -> Seq<u8> {
    match m {
        Mode::Octet => seq![0x6fu8, 0x63, 0x74, 0x65, 0x74],
        Mode::NetAscii => seq![0x6eu8, 0x65, 0x74, 0x61, 0x73, 0x63, 0x69, 0x69],
    }
}

/// Two bytes, most significant first.
pub open spec fn be16(v: u16) -> Seq<u8> {
    seq![(v / 256) as u8, (v % 256) as u8]
}

/// Big-endian value of the two bytes at `i`.
pub open spec fn u16_at(b: Seq<u8>, i: int) -> u16 {
    (b[i] as int * 256 + b[i + 1] as int) as u16
}

/// A read or write request: opcode, path, then mode, each text zero-terminated.
pub open spec fn request_bytes(op: u16, path: Seq<u8>, mode: Mode) -> Seq<u8> {
    be16(op) + path + seq![0u8] + mode_name(mode) + seq![0u8]
}

/// A data block: opcode, block number, payload.
pub open spec fn data_bytes(block: u16, payload: Seq<u8>) -> Seq<u8> {
    be16(OP_DATA) + be16(block) + payload
}

/// An acknowledgment of block `block`.
pub open spec fn ack_bytes(block: u16) -> Seq<u8> {
    be16(OP_ACK) + be16(block)
}

/// What a packet from the board says.
pub enum Reply {
    Data { block: u16, payload: Seq<u8> },
    Ack { block: u16 },
    Error { code: u16, message: Seq<char> },
    /// Too short, an opcode a board never sends, or an error packet whose
    /// message is unterminated or not UTF-8.
    Malformed,
}

/// Reads a packet from the board.
pub open spec fn classify(b: Seq<u8>) -> Reply {
    if b.len() < 4 {
        Reply::Malformed
    } else if u16_at(b, 0) == OP_DATA {
        Reply::Data { block: u16_at(b, 2), payload: b.subrange(4, b.len() as int) }
    } else if u16_at(b, 0) == OP_ACK {
        if b.len() == 4 {
            Reply::Ack { block: u16_at(b, 2) }
        } else {
            Reply::Malformed
        }
    } else if u16_at(b, 0) == OP_ERROR {
        match find_nul(b, 4) {
            Some(j) => if valid_utf8(b.subrange(4, j)) {
                Reply::Error { code: u16_at(b, 2), message: decode_utf8(b.subrange(4, j)) }
            } else {
                Reply::Malformed
            },
            None => Reply::Malformed,
        }
    } else {
        Reply::Malformed
    }
}

/// A packet from the board, decoded.
#[derive(Debug, Clone, PartialEq, Eq)]
pub enum Packet {
    Data { block: u16, payload: Vec<u8> },
    Ack { block: u16 },
    Error { code: u16, message: String },
    Malformed,
}

impl View for Packet {
    type V = Reply;

    open spec fn view(&self) -> Reply {
        match self {
            Packet::Data { block, payload } => Reply::Data { block: *block, payload: payload@ },
            Packet::Ack { block } => Reply::Ack { block: *block },
            Packet::Error { code, message } => Reply::Error { code: *code, message: message@ },
            Packet::Malformed => Reply::Malformed,
        }
    }
}

fn push_be16(v: &mut Vec<u8>, x: u16)
    ensures
        final(v)@ == old(v)@ + be16(x),
{
    v.push((x / 256) as u8);
    v.push((x % 256) as u8);
    assert(v@ =~= old(v)@ + be16(x));
}

pub(crate) fn push_bytes(v: &mut Vec<u8>, b: &[u8])
    ensures
        final(v)@ == old(v)@ + b@,
{
    let mut i: usize = 0;
    while i < b.len()
        invariant
            i <= b@.len(),
            v@ == old(v)@ + b@.subrange(0, i as int),
        decreases b@.len() - i,
    {
        v.push(b[i]);
        i += 1;
        assert(v@ =~= old(v)@ + b@.subrange(0, i as int));
    }
    assert(b@.subrange(0, i as int) =~= b@);
}

fn read_u16(b: &[u8], i: usize) -> (r: u16)
    requires
        i + 2 <= b@.len(),
    ensures
        r == u16_at(b@, i as int),
{
    (b[i] as u16) * 256 + (b[i + 1] as u16)
}

/// Frames a read (`op == OP_READ`) or write (`op == OP_WRITE`) request.
pub fn encode_request(op: u16, path: &str, mode: Mode) -> (r: Vec<u8>)
    ensures
        r@ == request_bytes(op, path.spec_bytes(), mode),
{
    let mut r = Vec::new();
    push_be16(&mut r, op);
    push_bytes(&mut r, path.as_bytes());
    r.push(0);
    match mode {
        Mode::Octet => {
            let n: [u8; 5] = [0x6f, 0x63, 0x74, 0x65, 0x74];
            assert(n@ =~= mode_name(mode));
            push_bytes(&mut r, &n);
        },
        Mode::NetAscii => {
            let n: [u8; 8] = [0x6e, 0x65, 0x74, 0x61, 0x73, 0x63, 0x69, 0x69];
            assert(n@ =~= mode_name(mode));
            push_bytes(&mut r, &n);
        },
    }
    r.push(0);
    assert(r@ =~= request_bytes(op, path.spec_bytes(), mode));
    r
}

/// Frames a data block.
pub fn encode_data(block: u16, payload: &[u8]) -> (r: Vec<u8>)
    ensures
        r@ == data_bytes(block, payload@),
{
    let mut r = Vec::new();
    push_be16(&mut r, OP_DATA);
    push_be16(&mut r, block);
    push_bytes(&mut r, payload);
    r
}

/// Frames an acknowledgment.
pub fn encode_ack(block: u16) -> (r: Vec<u8>)
    ensures
        r@ == ack_bytes(block),
{
    let mut r = Vec::new();
    push_be16(&mut r, OP_ACK);
    push_be16(&mut r, block);
    r
}

/// Decodes a packet from the board.
pub fn decode_packet(b: &[u8]) -> (r: Packet)
    ensures
        r@ == classify(b@),
{
    if b.len() < 4 {
        return Packet::Malformed;
    }
    let op = read_u16(b, 0);
    if op == OP_DATA {
        let mut payload = Vec::new();
        push_bytes(&mut payload, vstd::slice::slice_subrange(b, 4, b.len()));
        Packet::Data { block: read_u16(b, 2), payload }
    } else if op == OP_ACK {
        if b.len() == 4 {
            Packet::Ack { block: read_u16(b, 2) }
        } else {
            Packet::Malformed
        }
    } else if op == OP_ERROR {
        let mut j: usize = 4;
        while j < b.len() && b[j] != 0
            invariant
                4 <= j <= b@.len(),
                find_nul(b@, 4) == find_nul(b@, j as int),
            decreases b@.len() - j,
        {
            j += 1;
        }
        if j == b.len() {
            return Packet::Malformed;
        }
        assert(find_nul(b@, j as int) == Some(j as int));
        match utf8_text(vstd::slice::slice_subrange(b, 4, j)) {
            Some(message) => Packet::Error { code: read_u16(b, 2), message },
            None => Packet::Malformed,
        }
    } else {
        Packet::Malformed
    }
}

} // verus!
