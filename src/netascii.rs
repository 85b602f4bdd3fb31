//! Line-ending normalisation of text received in network-ASCII mode.
use vstd::prelude::*;

verus! {

/// Carriage return.
pub const CR: u8 = 0x0d;
/// Line feed.
pub const LF: u8 = 0x0a;

/// Text with network line endings made local: `CR LF` becomes `LF`, `CR NUL`
/// becomes `CR`; every other byte stays.
pub open spec fn from_netascii(b: Seq<u8>) -> Seq<u8>
    decreases b.len(),
{
    if b.len() == 0 {
        seq![]
    } else if b.len() >= 2 && b[0] == CR && b[1] == LF {
        seq![LF] + from_netascii(b.subrange(2, b.len() as int))
    } else if b.len() >= 2 && b[0] == CR && b[1] == 0 {
        seq![CR] + from_netascii(b.subrange(2, b.len() as int))
    } else {
        seq![b[0]] + from_netascii(b.subrange(1, b.len() as int))
    }
}

/// Normalises the line endings of text received in network-ASCII mode.
pub fn decode_netascii(b: &[u8]) -> (r: Vec<u8>)
    ensures
        r@ == from_netascii(b@),
{
    let mut r: Vec<u8> = Vec::new();
    let mut i: usize = 0;
    assert(b@.subrange(0, b@.len() as int) =~= b@);
    assert(r@ + from_netascii(b@) =~= from_netascii(b@));
    while i < b.len()
        invariant
            i <= b@.len(),
            r@ + from_netascii(b@.subrange(i as int, b@.len() as int)) == from_netascii(b@),
        decreases b@.len() - i,
    {
        let ghost rest = b@.subrange(i as int, b@.len() as int);
        let ghost r0 = r@;
        let step: usize;
        if b.len() - i >= 2 && b[i] == CR && (b[i + 1] == LF || b[i + 1] == 0) {
            if b[i + 1] == LF {
                r.push(LF);
            } else {
                r.push(CR);
            }
            step = 2;
        } else {
            r.push(b[i]);
            step = 1;
        }
        proof {
            assert(rest.subrange(step as int, rest.len() as int) =~= b@.subrange(
                i + step,
                b@.len() as int,
            ));
            let tail = from_netascii(rest.subrange(step as int, rest.len() as int));
            assert(from_netascii(rest) == seq![r@.last()] + tail);
            assert(r@ =~= r0 + seq![r@.last()]);
            assert(r0 + (seq![r@.last()] + tail) =~= r@ + tail);
        }
        i += step;
    }
    assert(b@.subrange(i as int, b@.len() as int) =~= seq![]);
    assert(r@ + seq![] =~= r@);
    r
}

} // verus!
