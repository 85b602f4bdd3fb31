//! The device directory: decoding the board's compact listing into a mapping
//! from register name to its place in the board's address space.
use vstd::prelude::*;
use vstd::slice::slice_subrange;
use vstd::utf8::{valid_utf8, decode_utf8};

use crate::error::Error;

verus! {

/// A register of the running gateware: byte offset and byte length in the
/// board's address space.
#[derive(Debug, Copy, Clone, PartialEq, Eq, Structural)]
pub struct Device {
    /// Offset in FPGA memory of this register.
    pub addr: u32,
    /// Number of bytes stored at this location.
    pub length: u32,
}

/// Big-endian value of four bytes.
pub open spec fn be_u32(b0: u8, b1: u8, b2: u8, b3: u8) -> u32 {
    (b0 as int * 0x1000000 + b1 as int * 0x10000 + b2 as int * 0x100 + b3 as int) as u32
}

/// Index of the first zero byte of `b` at or after `i`.
pub open spec fn find_nul(b: Seq<u8>, i: int) -> Option<int>
    decreases b.len() - i,
{
    if i < 0 || i >= b.len() {
        None
    } else if b[i] == 0 {
        Some(i)
    } else {
        find_nul(b, i + 1)
    }
}

/// The entries of a listing from position `i` on, each as its raw name bytes
/// and its record; `None` when the bytes break the grammar (a name without
/// terminator, a record cut short by the end of the buffer).
pub open spec fn parse_entries(b: Seq<u8>, i: int) -> Option<Seq<(Seq<u8>, Device)>>
    decreases b.len() - i,
{
    if i < 0 || i >= b.len() {
        Some(seq![])
    } else {
        match find_nul(b, i) {
            None => None,
            Some(j) => {
                if j + 9 > b.len() || j + 9 <= i {
                    None
                } else {
                    let dev = Device {
                        addr: be_u32(b[j + 1], b[j + 2], b[j + 3], b[j + 4]),
                        length: be_u32(b[j + 5], b[j + 6], b[j + 7], b[j + 8]),
                    };
                    match parse_entries(b, j + 9) {
                        None => None,
                        Some(rest) => Some(seq![(b.subrange(i, j), dev)] + rest),
                    }
                }
            },
        }
    }
}

/// Every name of the entries is valid UTF-8.
pub open spec fn names_valid(es: Seq<(Seq<u8>, Device)>) -> bool {
    forall|k: int| 0 <= k < es.len() ==> valid_utf8(#[trigger] es[k].0)
}

/// The mapping that inserting the pairs in order builds: a later pair with
/// an equal key replaces an earlier one.
pub open spec fn map_of(s: Seq<(Seq<char>, Device)>) -> Map<Seq<char>, Device>
    decreases s.len(),
{
    if s.len() == 0 {
        Map::empty()
    } else {
        map_of(s.drop_last()).insert(s.last().0, s.last().1)
    }
}

/// The names of `es` decoded as text, each with its record.
pub open spec fn decoded(es: Seq<(Seq<u8>, Device)>) -> Seq<(Seq<char>, Device)> {
    es.map_values(|e: (Seq<u8>, Device)| (decode_utf8(e.0), e.1))
}

/// The directory that a listing with entries `es` describes.
pub open spec fn directory_of(es: Seq<(Seq<u8>, Device)>) -> Map<Seq<char>, Device> {
    map_of(decoded(es))
}

/// No two pairs share a key.
pub open spec fn keys_unique(s: Seq<(Seq<char>, Device)>) -> bool {
    forall|a: int, b: int| 0 <= a < b < s.len() ==> #[trigger] s[a].0 != #[trigger] s[b].0
}

/// The pairs of unique keys are exactly the mapping's entries, one each.
pub proof fn lemma_map_of(s: Seq<(Seq<char>, Device)>)
    requires
        keys_unique(s),
    ensures
        forall|i: int|
            0 <= i < s.len() ==> #[trigger] map_of(s).contains_key(s[i].0) && map_of(s)[s[i].0]
                == s[i].1,
        forall|k: Seq<char>| #[trigger]
            map_of(s).contains_key(k) ==> exists|i: int| 0 <= i < s.len() && s[i].0 == k,
        map_of(s).dom().finite(),
        map_of(s).len() == s.len(),
    decreases s.len(),
{
    if s.len() > 0 {
        let t = s.drop_last();
        assert(keys_unique(t));
        lemma_map_of(t);
        assert forall|k: Seq<char>| #[trigger] map_of(s).contains_key(k) implies exists|i: int|
            0 <= i < s.len() && s[i].0 == k by {
            if k != s.last().0 {
                let i = choose|i: int| 0 <= i < t.len() && t[i].0 == k;
                assert(s[i].0 == k);
            } else {
                assert(s[s.len() - 1].0 == k);
            }
        }
        assert(!map_of(t).contains_key(s.last().0)) by {
            if map_of(t).contains_key(s.last().0) {
                let i = choose|i: int| 0 <= i < t.len() && t[i].0 == s.last().0;
                assert(s[i].0 == s[s.len() - 1].0);
            }
        }
        assert forall|i: int| 0 <= i < s.len() implies #[trigger] map_of(s).contains_key(s[i].0)
            && map_of(s)[s[i].0] == s[i].1 by {
            if i < s.len() - 1 {
                assert(t[i] == s[i]);
                assert(s[i].0 != s[s.len() - 1].0);
            }
        }
    }
}

/// Name-to-record mapping of the board's registers.
#[derive(Debug)]
pub struct Directory {
    entries: Vec<(String, Device)>,
}

impl Directory {
    /// The entries, each name as text.
    pub closed spec fn pairs(&self) -> Seq<(Seq<char>, Device)> {
        self.entries@.map_values(|e: (String, Device)| (e.0@, e.1))
    }

    /// No two entries share a name.
    pub closed spec fn wf(&self) -> bool {
        keys_unique(self.pairs())
    }

    /// The mapping from register name to record.
    pub closed spec fn view(&self) -> Map<Seq<char>, Device> {
        map_of(self.pairs())
    }

    /// An empty directory.
    pub fn new() -> (r: Directory)
        ensures
            r.wf(),
            r.view() == Map::<Seq<char>, Device>::empty(),
    {
        let r = Directory { entries: Vec::new() };
        assert(r.pairs().len() == 0);
        r
    }

    /// Puts `device` under `name`, replacing a record already there.
    pub fn insert(&mut self, name: String, device: Device)
        requires
            old(self).wf(),
        ensures
            final(self).wf(),
            final(self).view() == old(self).view().insert(name@, device),
    {
        let ghost s = self.pairs();
        proof {
            lemma_map_of(s);
        }
        let mut k: usize = 0;
        while k < self.entries.len()
            invariant
                k <= self.entries@.len(),
                self.pairs() == s,
                old(self).view() == map_of(s),
                keys_unique(s),
                forall|m: int| 0 <= m < k ==> s[m].0 != name@,
            decreases self.entries@.len() - k,
        {
            if self.entries[k].0 == name {
                assert(s[k as int].0 == name@);
                self.entries.set(k, (name, device));
                proof {
                    let s2 = self.pairs();
                    assert(s2 =~= s.update(k as int, (name@, device)));
                    assert(keys_unique(s2));
                    lemma_map_of(s);
                    lemma_map_of(s2);
                    assert(map_of(s2) =~= map_of(s).insert(name@, device)) by {
                        assert forall|x: Seq<char>| #[trigger] map_of(s2).contains_key(x)
                            <==> map_of(s).insert(name@, device).contains_key(x) by {
                            if map_of(s2).contains_key(x) {
                                let i = choose|i: int| 0 <= i < s2.len() && s2[i].0 == x;
                                if i != k {
                                    assert(s[i].0 == x);
                                }
                            }
                            if map_of(s).contains_key(x) {
                                let i = choose|i: int| 0 <= i < s.len() && s[i].0 == x;
                                assert(s2[i].0 == x);
                            }
                        }
                        assert forall|x: Seq<char>| #[trigger] map_of(s2).contains_key(x) implies
                            map_of(s2)[x] == map_of(s).insert(name@, device)[x] by {
                            let i = choose|i: int| 0 <= i < s2.len() && s2[i].0 == x;
                            if i != k {
                                assert(s[i] == s2[i]);
                            }
                        }
                    }
                }
                return;
            }
            k += 1;
        }
        self.entries.push((name, device));
        proof {
            let s2 = self.pairs();
            assert(s2 =~= s.push((name@, device)));
            assert(s2.drop_last() =~= s);
            assert(keys_unique(s2));
        }
    }

    /// The record stored under `name`, if any.
    pub fn get(&self, name: &str) -> (r: Option<Device>)
        requires
            self.wf(),
        ensures
            r == (if self.view().contains_key(name@) {
                Some(self.view()[name@])
            } else {
                None::<Device>
            }),
    {
        proof {
            lemma_map_of(self.pairs());
        }
        let key = String::from_str(name);
        let mut k: usize = 0;
        while k < self.entries.len()
            invariant
                k <= self.entries@.len(),
                self.wf(),
                key@ == name@,
                forall|m: int| 0 <= m < k ==> self.pairs()[m].0 != name@,
            decreases self.entries@.len() - k,
        {
            if self.entries[k].0 == key {
                let ghost p = self.pairs();
                proof {
                    lemma_map_of(p);
                }
                assert(p[k as int] == (self.entries@[k as int].0@, self.entries@[k as int].1));
                assert(self.view().contains_key(p[k as int].0));
                return Some(self.entries[k].1);
            }
            k += 1;
        }
        proof {
            lemma_map_of(self.pairs());
        }
        None
    }

    /// The entries, in the order of [`Directory::entry`], are the mapping:
    /// no name repeats, every entry is in the mapping, and every name of
    /// the mapping has an entry.
    pub proof fn lemma_pairs(&self)
        requires
            self.wf(),
        ensures
            keys_unique(self.pairs()),
            self.view() == map_of(self.pairs()),
            self.pairs().len() == self.view().len(),
            forall|i: int|
                0 <= i < self.pairs().len() ==> #[trigger] self.view().contains_key(
                    self.pairs()[i].0,
                ) && self.view()[self.pairs()[i].0] == self.pairs()[i].1,
            forall|k: Seq<char>| #[trigger]
                self.view().contains_key(k) ==> exists|i: int|
                    0 <= i < self.pairs().len() && self.pairs()[i].0 == k,
    {
        let s = self.pairs();
        lemma_map_of(s);
        assert forall|i: int| 0 <= i < s.len() implies #[trigger] self.view().contains_key(s[i].0)
            && self.view()[s[i].0] == s[i].1 by {
            assert(map_of(s).contains_key(s[i].0));
        }
    }

    /// Number of registers in the directory.
    pub fn len(&self) -> (r: usize)
        requires
            self.wf(),
        ensures
            r == self.view().len(),
            r == self.pairs().len(),
    {
        proof {
            lemma_map_of(self.pairs());
        }
        self.entries.len()
    }

    /// The `i`-th entry; indices `0..len()` give every register once.
    pub fn entry(&self, i: usize) -> (r: (String, Device))
        requires
            self.wf(),
            i < self.view().len(),
        ensures
            (r.0@, r.1) == self.pairs()[i as int],
            self.view().contains_key(r.0@),
            self.view()[r.0@] == r.1,
    {
        proof {
            lemma_map_of(self.pairs());
        }
        let name = self.entries[i].0.clone();
        assert(self.pairs()[i as int].0 == name@);
        (name, self.entries[i].1)
    }
}

/// Whether `b` is a well-formed listing whose names are all valid UTF-8.
pub open spec fn decodable(b: Seq<u8>) -> bool {
    parse_entries(b, 0) matches Some(es) && names_valid(es)
}

/// Decodes a device listing: consecutive entries, each a zero-terminated name
/// followed by the register's offset and length as big-endian 32-bit values.
/// A later entry with an already seen name replaces the earlier one.
pub fn decode_directory(buf: &[u8]) -> (r: Result<Directory, Error>)
    ensures
        r is Ok <==> decodable(buf@),
        r is Err ==> r == Err::<Directory, Error>(Error::Decode),
        r matches Ok(d) ==> d.wf() && d.view() == directory_of(parse_entries(buf@, 0)->Some_0),
{
    let ghost b = buf@;
    let mut dir = Directory::new();
    let mut i: usize = 0;
    let ghost mut es: Seq<(Seq<u8>, Device)> = seq![];
    assert(es + seq![] =~= es);
    while i < buf.len()
        invariant
            b == buf@,
            i <= b.len(),
            parse_entries(b, 0) == (match parse_entries(b, i as int) {
                Some(rest) => Some(es + rest),
                None => None,
            }),
            names_valid(es),
            dir.wf(),
            dir.view() == directory_of(es),
        decreases b.len() - i,
    {
        let mut j: usize = i;
        while j < buf.len() && buf[j] != 0
            invariant
                b == buf@,
                i <= j <= b.len(),
                find_nul(b, i as int) == find_nul(b, j as int),
            decreases b.len() - j,
        {
            j += 1;
        }
        if j == buf.len() || buf.len() - j < 9 {
            return Err(Error::Decode);
        }
        assert(find_nul(b, i as int) == Some(j as int));
        let dev = Device { addr: read_be_u32(buf, j + 1), length: read_be_u32(buf, j + 5) };
        let ghost e = (b.subrange(i as int, j as int), dev);
        let name = match utf8_text(slice_subrange(buf, i, j)) {
            Some(name) => name,
            None => {
                proof {
                    if let Some(rest) = parse_entries(b, j + 9) {
                        let all = es + (seq![e] + rest);
                        assert(all[es.len() as int] == e);
                        assert(!valid_utf8(all[es.len() as int].0));
                    }
                }
                return Err(Error::Decode);
            },
        };
        proof {
            let es2 = es.push(e);
            if let Some(rest) = parse_entries(b, j + 9) {
                assert(es + (seq![e] + rest) =~= es2 + rest);
            }
            assert(decoded(es2) =~= decoded(es).push((name@, dev)));
            assert(decoded(es2).drop_last() =~= decoded(es));
            es = es2;
        }
        dir.insert(name, dev);
        i = j + 9;
    }
    proof {
        assert(es + seq![] =~= es);
    }
    Ok(dir)
}

/// Decodes the reply to a directory read: two header bytes, then the listing.
pub fn decode_listing(bytes: &[u8]) -> (r: Result<Directory, Error>)
    ensures
        bytes@.len() < 2 ==> r == Err::<Directory, Error>(Error::Decode),
        bytes@.len() >= 2 ==> (r is Ok <==> decodable(bytes@.subrange(2, bytes@.len() as int))),
        r is Err ==> r == Err::<Directory, Error>(Error::Decode),
        r matches Ok(d) ==> d.wf() && d.view() == directory_of(
            parse_entries(bytes@.subrange(2, bytes@.len() as int), 0)->Some_0,
        ),
{
    if bytes.len() < 2 {
        return Err(Error::Decode);
    }
    decode_directory(slice_subrange(bytes, 2, bytes.len()))
}

/// Relies on std::str::from_utf8: it succeeds exactly on valid UTF-8, and the
/// text it returns is what the bytes encode.
#[verifier::external_body]
pub(crate) fn utf8_text(b: &[u8]) -> (r: Option<String>)
    ensures
        r is Some <==> valid_utf8(b@),
        r matches Some(s) ==> s@ == decode_utf8(b@),
{
    std::str::from_utf8(b).ok().map(|s| s.to_string())
}

/// Reads four bytes at `i` as a big-endian integer.
pub(crate) fn read_be_u32(b: &[u8], i: usize) -> (r: u32)
    requires
        i + 4 <= b@.len(),
    ensures
        r == be_u32(b@[i as int], b@[i + 1], b@[i + 2], b@[i + 3]),
{
    (b[i] as u32) * 0x1000000 + (b[i + 1] as u32) * 0x10000 + (b[i + 2] as u32) * 0x100 + (b[i
        + 3] as u32)
}

} // verus!
