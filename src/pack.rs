//! Decoding of a pack index (`.idx`): the object hashes that a pack holds.

use vstd::prelude::*;
use vstd::slice::slice_subrange;
use byteorder::{BigEndian, ByteOrder};
use crate::pattern::{captured, find_all, PACK_PATTERN};
use crate::text::views;

verus! {

/// Why a pack index could not be decoded.
#[derive(Debug, PartialEq, Eq, Structural)]
pub enum PackError {
    /// The signature is wrong, or the bytes end before the last entry.
    MalformedPackIndex,
}

/// The four bytes that open a pack index: `\xfftOc`.
pub open spec fn idx_signature() -> Seq<u8> {
    seq![0xffu8, 0x74u8, 0x4fu8, 0x63u8]
}

/// The big-endian value of four bytes.
pub open spec fn be_u32(b: Seq<u8>) -> int {
    b[0] * 0x100_0000 + b[1] * 0x1_0000 + b[2] * 0x100 + b[3]
}

/// The lowercase hexadecimal digit for `n < 16`.
pub open spec fn hex_digit(n: int) -> char {
    seq!['0', '1', '2', '3', '4', '5', '6', '7', '8', '9', 'a', 'b', 'c', 'd', 'e', 'f'][n]
}

/// Two lowercase hexadecimal digits for each byte, high digit first.
pub open spec fn hex_of(b: Seq<u8>) -> Seq<char> {
    Seq::new(
        2 * b.len(),
        |i: int|
            if i % 2 == 0 {
                hex_digit(b[i / 2] as int / 16)
            } else {
                hex_digit(b[i / 2] as int % 16)
            },
    )
}

/// Length of the header: signature, version and entry count.
pub open spec fn header_len() -> int {
    12
}

/// Length of one entry: a 20-byte hash, a 4-byte offset and a 4-byte CRC.
pub open spec fn entry_len() -> int {
    28
}

/// The header is present and opens with the signature.
pub open spec fn header_ok(b: Seq<u8>) -> bool {
    b.len() >= header_len() && b.take(4) == idx_signature()
}

/// The number of entries that the header announces.
pub open spec fn entry_count(b: Seq<u8>) -> int {
    be_u32(b.subrange(8, 12))
}

/// Where entry `i` begins.
pub open spec fn entry_start(i: int) -> int {
    header_len() + entry_len() * i
}

/// The bytes decode: the header is sound and every announced entry is there.
pub open spec fn idx_well_formed(b: Seq<u8>) -> bool {
    header_ok(b) && b.len() >= entry_start(entry_count(b))
}

/// The hash of entry `i`, in hexadecimal.
pub open spec fn entry_hash(b: Seq<u8>, i: int) -> Seq<char> {
    hex_of(b.subrange(entry_start(i), entry_start(i) + 20))
}

/// The hashes of all announced entries, in order.
pub open spec fn idx_hashes(b: Seq<u8>) -> Seq<Seq<char>> {
    Seq::new(entry_count(b) as nat, |i: int| entry_hash(b, i))
}

/// Relies on byteorder's BigEndian::read_u32: the first four bytes, big-endian.
#[verifier::external_body]
fn read_be_u32(b: &[u8]) -> (r: u32)
    requires
        b@.len() >= 4,
    ensures
        r as int == be_u32(b@),
{
    BigEndian::read_u32(b)
}

/// Relies on hex::encode: two lowercase digits for each byte.
#[verifier::external_body]
fn to_hex(b: &[u8]) -> (r: String)
    ensures
        r@ == hex_of(b@),
{
    hex::encode(b)
}

/// Reads the header and returns the number of entries it announces.
pub fn parse_entry_count(b: &[u8]) -> (r: Result<u32, PackError>)
    ensures
        header_ok(b@) ==> r == Ok::<u32, PackError>(entry_count(b@) as u32),
        !header_ok(b@) ==> r == Err::<u32, PackError>(PackError::MalformedPackIndex),
{
    if b.len() < 12 {
        return Err(PackError::MalformedPackIndex);
    }
    if !(b[0] == 0xff && b[1] == 0x74 && b[2] == 0x4f && b[3] == 0x63) {
        assert(b@.take(4) != idx_signature()) by {
            if b@.take(4) == idx_signature() {
                assert(b@.take(4)[0] == b@[0] && b@.take(4)[1] == b@[1]);
                assert(b@.take(4)[2] == b@[2] && b@.take(4)[3] == b@[3]);
            }
        }
        return Err(PackError::MalformedPackIndex);
    }
    assert(b@.take(4) =~= idx_signature());
    let count = read_be_u32(slice_subrange(b, 8, 12));
    Ok(count)
}

/// Reads the entry that begins at `at` and returns its hash in hexadecimal.
pub fn parse_entry(b: &[u8], at: usize) -> (r: Result<String, PackError>)
    ensures
        at + entry_len() <= b@.len() ==> (r matches Ok(h) && h@ == hex_of(b@.subrange(at as int, at + 20))),
        at + entry_len() > b@.len() ==> r == Err::<String, PackError>(PackError::MalformedPackIndex),
{
    if at > b.len() || b.len() - at < 28 {
        return Err(PackError::MalformedPackIndex);
    }
    Ok(to_hex(slice_subrange(b, at, at + 20)))
}

/// Decodes a pack index and returns the hash of each entry, in order.
pub fn parse(b: &[u8]) -> (r: Result<Vec<String>, PackError>)
    ensures
        idx_well_formed(b@) ==> (r matches Ok(v) && views(v@) == idx_hashes(b@)),
        !idx_well_formed(b@) ==> r == Err::<Vec<String>, PackError>(PackError::MalformedPackIndex),
{
    let count = parse_entry_count(b)?;
    let mut hashes: Vec<String> = Vec::new();
    let mut i: u32 = 0;
    while i < count
        invariant
            header_ok(b@),
            count as int == entry_count(b@),
            i <= count,
            b@.len() >= entry_start(i as int),
            views(hashes@) == idx_hashes(b@).take(i as int),
        decreases count - i,
    {
        let at: u64 = 12 + 28 * (i as u64);
        if at + 28 > b.len() as u64 {
            assert(!idx_well_formed(b@)) by {
                assert(entry_start(count as int) >= entry_start(i as int + 1)) by (nonlinear_arith)
                    requires i < count;
            }
            return Err(PackError::MalformedPackIndex);
        }
        let h = parse_entry(b, at as usize);
        match h {
            Ok(h) => {
                assert(at as int == entry_start(i as int));
                assert(i < entry_count(b@));
                assert(h@ == entry_hash(b@, i as int));
                let ghost before = hashes@;
                let ghost hv = h@;
                hashes.push(h);
                assert(views(hashes@) =~= views(before).push(hv));
                assert(views(hashes@) =~= idx_hashes(b@).take(i as int + 1));
            },
            Err(e) => {
                return Err(e);
            },
        }
        i = i + 1;
    }
    assert(idx_hashes(b@).take(count as int) =~= idx_hashes(b@));
    Ok(hashes)
}

/// `.git/objects/pack/pack-`
pub open spec fn pack_prefix() -> Seq<char> {
    seq!['.', 'g', 'i', 't', '/', 'o', 'b', 'j', 'e', 'c', 't', 's', '/', 'p', 'a', 'c', 'k', '/', 'p', 'a', 'c', 'k', '-']
}

/// The index and the pack file of the pack named by hash `h`.
pub open spec fn pack_pair(h: Seq<char>) -> Seq<Seq<char>> {
    seq![pack_prefix() + h + seq!['.', 'i', 'd', 'x'], pack_prefix() + h + seq!['.', 'p', 'a', 'c', 'k']]
}

/// The index and pack files of each named pack, in order.
pub open spec fn pack_pairs(hs: Seq<Seq<char>>) -> Seq<Seq<char>>
    decreases hs.len(),
{
    if hs.len() == 0 {
        Seq::empty()
    } else {
        pack_pairs(hs.drop_last()) + pack_pair(hs.last())
    }
}

/// The `.idx` and `.pack` paths of each pack named in `hs`.
pub fn pack_paths(hs: &Vec<String>) -> (r: Vec<String>)
    ensures
        views(r@) == pack_pairs(views(hs@)),
{
    let mut out: Vec<String> = Vec::new();
    let mut i: usize = 0;
    while i < hs.len()
        invariant
            i <= hs.len(),
            views(out@) == pack_pairs(views(hs@).take(i as int)),
        decreases hs.len() - i,
    {
        assert(views(hs@).take(i as int + 1).drop_last() =~= views(hs@).take(i as int));
        let mut idx = String::from_str(".git/objects/pack/pack-");
        idx.append(hs[i].as_str());
        let mut pack = idx.clone();
        idx.append(".idx");
        pack.append(".pack");
        proof {
            reveal_strlit(".git/objects/pack/pack-");
            reveal_strlit(".idx");
            reveal_strlit(".pack");
            assert(idx@ =~= pack_pair(hs@[i as int]@)[0]);
            assert(pack@ =~= pack_pair(hs@[i as int]@)[1]);
        }
        out.push(idx);
        out.push(pack);
        assert(views(out@) =~= pack_pairs(views(hs@).take(i as int + 1)));
        i = i + 1;
    }
    assert(views(hs@).take(hs.len() as int) =~= views(hs@));
    out
}

/// The files of the packs that the text of `objects/info/packs` names.
pub fn packs_listed(text: &str) -> (r: Vec<String>)
    ensures
        views(r@) == pack_pairs(captured(PACK_PATTERN@, text@, 1)),
{
    let names = find_all(PACK_PATTERN, text, 1);
    pack_paths(&names)
}

/// A file name of the shape `pack-*.idx`.
pub open spec fn is_index_name(name: Seq<char>) -> bool {
    name.len() >= 9 && name.take(5) == seq!['p', 'a', 'c', 'k', '-'] && name.skip(name.len() - 4)
        == seq!['.', 'i', 'd', 'x']
}

/// Whether `name` is the file name of a pack index, `pack-*.idx`.
pub fn is_pack_index_name(name: &str) -> (r: bool)
    ensures
        r == is_index_name(name@),
{
    let n = name.unicode_len();
    if n < 9 {
        return false;
    }
    let r = name.get_char(0) == 'p' && name.get_char(1) == 'a' && name.get_char(2) == 'c'
        && name.get_char(3) == 'k' && name.get_char(4) == '-' && name.get_char(n - 4) == '.'
        && name.get_char(n - 3) == 'i' && name.get_char(n - 2) == 'd' && name.get_char(n - 1)
        == 'x';
    proof {
        if r {
            assert(name@.take(5) =~= seq!['p', 'a', 'c', 'k', '-']);
            assert(name@.skip(n - 4) =~= seq!['.', 'i', 'd', 'x']);
        } else if is_index_name(name@) {
            assert(name@.take(5)[0] == name@[0] && name@.take(5)[4] == name@[4]);
            assert(name@.take(5)[1] == name@[1] && name@.take(5)[2] == name@[2]);
            assert(name@.take(5)[3] == name@[3]);
            assert(name@.skip(n - 4)[0] == name@[n - 4] && name@.skip(n - 4)[1] == name@[n - 3]);
            assert(name@.skip(n - 4)[2] == name@[n - 2] && name@.skip(n - 4)[3] == name@[n - 1]);
        }
    }
    r
}

} // verus!
