//! The binary encoding of field values: little-endian integers, one-byte
//! flags, raw 32-byte hashes and length-prefixed sequences.

use vstd::prelude::*;
use vstd::bytes::{
    lemma_auto_spec_u32_to_from_le_bytes, lemma_auto_spec_u64_to_from_le_bytes,
    spec_u32_from_le_bytes, spec_u32_to_le_bytes, spec_u64_from_le_bytes, spec_u64_to_le_bytes,
};
use vstd::slice::slice_subrange;
use vstd::utf8::{decode_utf8, encode_utf8, valid_utf8};
use crate::hash::Hash32;

verus! {

/// The hash value whose bytes are `bytes`.
pub open spec fn hash_of(bytes: Seq<u8>) -> Hash32 {
    choose|h: Hash32| h@ == bytes
}

/// `piece` stands in `bytes` at `pos`.
pub open spec fn holds_at(bytes: Seq<u8>, pos: int, piece: Seq<u8>) -> bool {
    0 <= pos && pos + piece.len() <= bytes.len() && bytes.subrange(pos, pos + piece.len())
        == piece
}

/// Where a parsed field ends, or a position at which nothing can be read
/// if the field was not there.
pub open spec fn end_of<T>(field: Option<(T, int)>) -> int {
    match field {
        Some((_, end)) => end,
        None => -1,
    }
}

/// The encoding of a byte: the byte itself.
pub open spec fn enc_u8(x: u8) -> Seq<u8> {
    seq![x]
}

/// The encoding of a flag: the byte 1 for true, the byte 0 for false.
pub open spec fn enc_bool(x: bool) -> Seq<u8> {
    seq![if x { 1u8 } else { 0u8 }]
}

/// The encoding of a 32-bit integer: its four bytes, the lowest first.
pub open spec fn enc_u32(x: u32) -> Seq<u8> {
    spec_u32_to_le_bytes(x)
}

/// The encoding of a 64-bit integer: its eight bytes, the lowest first.
pub open spec fn enc_u64(x: u64) -> Seq<u8> {
    spec_u64_to_le_bytes(x)
}

/// The encoding of a hash value: its 32 bytes.
pub open spec fn enc_hash(x: Hash32) -> Seq<u8> {
    x@
}

/// The encoding of an optional hash value: the byte 0 for none, or the
/// byte 1 and then the hash value.
pub open spec fn enc_option_hash(x: Option<Hash32>) -> Seq<u8> {
    match x {
        None => seq![0u8],
        Some(h) => seq![1u8] + h@,
    }
}

/// The bytes of the hashes of `items`, one after the other.
pub open spec fn flatten(items: Seq<Hash32>) -> Seq<u8>
    decreases items.len(),
{
    if items.len() == 0 {
        Seq::empty()
    } else {
        flatten(items.drop_last()) + items.last()@
    }
}

/// A list of hashes: its length as a 32-bit integer, then the hashes.
pub open spec fn enc_hashes(items: Seq<Hash32>) -> Seq<u8> {
    enc_u32(items.len() as u32) + flatten(items)
}

/// A byte string: its length as a 32-bit integer, then the bytes.
pub open spec fn enc_bytes(data: Seq<u8>) -> Seq<u8> {
    enc_u32(data.len() as u32) + data
}

/// A text: its UTF-8 bytes as a byte string.
pub open spec fn enc_string(text: Seq<char>) -> Seq<u8> {
    enc_bytes(encode_utf8(text))
}

/// Reads a byte at `pos`: the value and the position after it.
pub open spec fn parse_u8(bytes: Seq<u8>, pos: int) -> Option<(u8, int)> {
    if 0 <= pos < bytes.len() {
        Some((bytes[pos], pos + 1))
    } else {
        None
    }
}

/// A flag is the byte 0 or the byte 1; any other byte is refused.
pub open spec fn parse_bool(bytes: Seq<u8>, pos: int) -> Option<(bool, int)> {
    if 0 <= pos < bytes.len() && bytes[pos] <= 1 {
        Some((bytes[pos] == 1, pos + 1))
    } else {
        None
    }
}

/// Reads a 32-bit integer at `pos`: the value and the position after it.
pub open spec fn parse_u32(bytes: Seq<u8>, pos: int) -> Option<(u32, int)> {
    if 0 <= pos && pos + 4 <= bytes.len() {
        Some((spec_u32_from_le_bytes(bytes.subrange(pos, pos + 4)), pos + 4))
    } else {
        None
    }
}

/// Reads a 64-bit integer at `pos`: the value and the position after it.
pub open spec fn parse_u64(bytes: Seq<u8>, pos: int) -> Option<(u64, int)> {
    if 0 <= pos && pos + 8 <= bytes.len() {
        Some((spec_u64_from_le_bytes(bytes.subrange(pos, pos + 8)), pos + 8))
    } else {
        None
    }
}

/// Reads a hash value at `pos`: the value and the position after it.
pub open spec fn parse_hash(bytes: Seq<u8>, pos: int) -> Option<(Hash32, int)> {
    if 0 <= pos && pos + 32 <= bytes.len() {
        Some((hash_of(bytes.subrange(pos, pos + 32)), pos + 32))
    } else {
        None
    }
}

/// Reads an optional hash value at `pos`: the value and the position after it.
pub open spec fn parse_option_hash(bytes: Seq<u8>, pos: int) -> Option<(Option<Hash32>, int)> {
    match parse_u8(bytes, pos) {
        Some((tag, next)) => if tag == 0 {
            Some((None, next))
        } else if tag == 1 {
            match parse_hash(bytes, next) {
                Some((h, end)) => Some((Some(h), end)),
                None => None,
            }
        } else {
            None
        },
        None => None,
    }
}

/// Reads a list of hashes at `pos`: the value and the position after it.
pub open spec fn parse_hashes(bytes: Seq<u8>, pos: int) -> Option<(Seq<Hash32>, int)> {
    match parse_u32(bytes, pos) {
        Some((n, start)) => if start + 32 * n <= bytes.len() {
            Some(
                (
                    Seq::new(
                        n as nat,
                        |i: int| hash_of(bytes.subrange(start + 32 * i, start + 32 * i + 32)),
                    ),
                    start + 32 * n,
                ),
            )
        } else {
            None
        },
        None => None,
    }
}

/// Reads a byte string at `pos`: the value and the position after it.
pub open spec fn parse_bytes(bytes: Seq<u8>, pos: int) -> Option<(Seq<u8>, int)> {
    match parse_u32(bytes, pos) {
        Some((n, start)) => if start + n <= bytes.len() {
            Some((bytes.subrange(start, start + n), start + n))
        } else {
            None
        },
        None => None,
    }
}

/// A text is a byte string that is valid UTF-8.
pub open spec fn parse_string(bytes: Seq<u8>, pos: int) -> Option<(Seq<char>, int)> {
    match parse_bytes(bytes, pos) {
        Some((raw, end)) => if valid_utf8(raw) {
            Some((decode_utf8(raw), end))
        } else {
            None
        },
        None => None,
    }
}

/// Calls `borsh::to_vec` on a `u32`: borsh writes an integer as its bytes
/// in little-endian order, and writing into a vector does not fail.
#[verifier::external_body]
pub(crate) fn borsh_u32(x: u32) -> (out: Vec<u8>)
    ensures
        out@ == spec_u32_to_le_bytes(x),
{
    match borsh::to_vec(&x) {
        Ok(bytes) => bytes,
        Err(_) => Vec::new(),
    }
}

/// Calls `borsh::to_vec` on a `u64`: borsh writes an integer as its bytes
/// in little-endian order, and writing into a vector does not fail.
#[verifier::external_body]
pub(crate) fn borsh_u64(x: u64) -> (out: Vec<u8>)
    ensures
        out@ == spec_u64_to_le_bytes(x),
{
    match borsh::to_vec(&x) {
        Ok(bytes) => bytes,
        Err(_) => Vec::new(),
    }
}

/// Calls `borsh::from_slice` for a `u32`: it reads four bytes as a
/// little-endian integer and fails on a slice of any other length.
#[verifier::external_body]
pub(crate) fn borsh_read_u32(bytes: &[u8]) -> (out: Option<u32>)
    ensures
        bytes@.len() == 4 ==> out == Some(spec_u32_from_le_bytes(bytes@)),
        bytes@.len() != 4 ==> out is None,
{
    borsh::from_slice::<u32>(bytes).ok()
}

/// Calls `borsh::from_slice` for a `u64`: it reads eight bytes as a
/// little-endian integer and fails on a slice of any other length.
#[verifier::external_body]
pub(crate) fn borsh_read_u64(bytes: &[u8]) -> (out: Option<u64>)
    ensures
        bytes@.len() == 8 ==> out == Some(spec_u64_from_le_bytes(bytes@)),
        bytes@.len() != 8 ==> out is None,
{
    borsh::from_slice::<u64>(bytes).ok()
}

/// Calls `String::from_utf8`: it succeeds exactly on valid UTF-8 and then
/// returns the text that the bytes encode.
#[verifier::external_body]
pub(crate) fn string_from_utf8(bytes: Vec<u8>) -> (out: Option<String>)
    ensures
        out is Some <==> valid_utf8(bytes@),
        out matches Some(text) ==> text@ == decode_utf8(bytes@),
{
    String::from_utf8(bytes).ok()
}

/// Appends the encoding of a byte to `out`.
pub fn write_u8(out: &mut Vec<u8>, x: u8)
    ensures
        final(out)@ == old(out)@ + enc_u8(x),
{
    out.push(x);
    assert(out@ =~= old(out)@ + enc_u8(x));
}

/// Appends the encoding of a flag to `out`.
pub fn write_bool(out: &mut Vec<u8>, x: bool)
    ensures
        final(out)@ == old(out)@ + enc_bool(x),
{
    out.push(if x { 1u8 } else { 0u8 });
    assert(out@ =~= old(out)@ + enc_bool(x));
}

/// Appends every byte of `data` to `out`.
pub fn write_raw(out: &mut Vec<u8>, data: &[u8])
    ensures
        final(out)@ == old(out)@ + data@,
{
    let mut i: usize = 0;
    while i < data.len()
        invariant
            i <= data.len(),
            out@ == old(out)@ + data@.subrange(0, i as int),
        decreases data.len() - i,
    {
        out.push(data[i]);
        i += 1;
    }
    assert(data@.subrange(0, data.len() as int) =~= data@);
}

/// Appends the encoding of a 32-bit integer to `out`.
pub fn write_u32(out: &mut Vec<u8>, x: u32)
    ensures
        final(out)@ == old(out)@ + enc_u32(x),
{
    let bytes = borsh_u32(x);
    write_raw(out, bytes.as_slice());
}

/// Appends the encoding of a 64-bit integer to `out`.
pub fn write_u64(out: &mut Vec<u8>, x: u64)
    ensures
        final(out)@ == old(out)@ + enc_u64(x),
{
    let bytes = borsh_u64(x);
    write_raw(out, bytes.as_slice());
}

/// Appends the encoding of a hash value to `out`.
pub fn write_hash(out: &mut Vec<u8>, x: &Hash32)
    ensures
        final(out)@ == old(out)@ + enc_hash(*x),
{
    write_raw(out, x.as_slice());
}

/// Appends the encoding of an optional hash value to `out`.
pub fn write_option_hash(out: &mut Vec<u8>, x: &Option<Hash32>)
    ensures
        final(out)@ == old(out)@ + enc_option_hash(*x),
{
    match x {
        None => {
            out.push(0u8);
            assert(out@ =~= old(out)@ + enc_option_hash(*x));
        },
        Some(h) => {
            out.push(1u8);
            write_raw(out, h.as_slice());
            assert(out@ =~= old(out)@ + enc_option_hash(*x));
        },
    }
}

/// Appends a list of hashes, unless it is too long for its 32-bit length
/// prefix: then nothing is appended and `false` is returned.
pub fn write_hashes(out: &mut Vec<u8>, items: &Vec<Hash32>) -> (ok: bool)
    ensures
        ok == (items@.len() <= u32::MAX),
        ok ==> final(out)@ == old(out)@ + enc_hashes(items@),
        !ok ==> final(out)@ == old(out)@,
{
    if items.len() > u32::MAX as usize {
        return false;
    }
    write_u32(out, items.len() as u32);
    let mut i: usize = 0;
    while i < items.len()
        invariant
            i <= items.len(),
            out@ == old(out)@ + enc_u32(items@.len() as u32) + flatten(items@.take(i as int)),
        decreases items.len() - i,
    {
        write_raw(out, items[i].as_slice());
        proof {
            let next = items@.take(i + 1);
            assert(next.drop_last() =~= items@.take(i as int));
            assert(next.last() == items@[i as int]);
        }
        i += 1;
    }
    assert(items@.take(items.len() as int) =~= items@);
    assert(out@ =~= old(out)@ + enc_hashes(items@));
    true
}

/// Appends a byte string, unless it is too long for its 32-bit length
/// prefix: then nothing is appended and `false` is returned.
pub fn write_bytes(out: &mut Vec<u8>, data: &[u8]) -> (ok: bool)
    ensures
        ok == (data@.len() <= u32::MAX),
        ok ==> final(out)@ == old(out)@ + enc_bytes(data@),
        !ok ==> final(out)@ == old(out)@,
{
    if data.len() > u32::MAX as usize {
        return false;
    }
    write_u32(out, data.len() as u32);
    write_raw(out, data);
    assert(out@ =~= old(out)@ + enc_bytes(data@));
    true
}

/// Appends a text as its UTF-8 bytes, unless they are too many for the
/// 32-bit length prefix: then nothing is appended and `false` is returned.
pub fn write_string(out: &mut Vec<u8>, text: &String) -> (ok: bool)
    ensures
        ok == (encode_utf8(text@).len() <= u32::MAX),
        ok ==> final(out)@ == old(out)@ + enc_string(text@),
        !ok ==> final(out)@ == old(out)@,
{
    write_bytes(out, text.as_str().as_bytes())
}

/// Reads a byte at `pos`: the value and the position after it, or
/// `None` where `bytes` holds none there.
pub fn read_u8(bytes: &[u8], pos: usize) -> (r: Option<(u8, usize)>)
    ensures
        same_parse(r, parse_u8(bytes@, pos as int)),
{
    if pos < bytes.len() {
        Some((bytes[pos], pos + 1))
    } else {
        None
    }
}

/// Reads a flag at `pos`: the value and the position after it, or
/// `None` where `bytes` holds none there.
pub fn read_bool(bytes: &[u8], pos: usize) -> (r: Option<(bool, usize)>)
    ensures
        same_parse(r, parse_bool(bytes@, pos as int)),
{
    if pos < bytes.len() && bytes[pos] <= 1 {
        Some((bytes[pos] == 1, pos + 1))
    } else {
        None
    }
}

/// An executable reader agrees with a parser: both fail, or both give the
/// same value and the same position after it.
pub open spec fn same_parse<T>(r: Option<(T, usize)>, expected: Option<(T, int)>) -> bool {
    match expected {
        Some((value, next)) => r matches Some((v, n)) && v == value && n == next,
        None => r is None,
    }
}

/// Reads a 32-bit integer at `pos`: the value and the position after it, or
/// `None` where `bytes` holds none there.
pub fn read_u32(bytes: &[u8], pos: usize) -> (r: Option<(u32, usize)>)
    ensures
        same_parse(r, parse_u32(bytes@, pos as int)),
{
    if pos > bytes.len() || bytes.len() - pos < 4 {
        return None;
    }
    match borsh_read_u32(slice_subrange(bytes, pos, pos + 4)) {
        Some(x) => Some((x, pos + 4)),
        None => None,
    }
}

/// Reads a 64-bit integer at `pos`: the value and the position after it, or
/// `None` where `bytes` holds none there.
pub fn read_u64(bytes: &[u8], pos: usize) -> (r: Option<(u64, usize)>)
    ensures
        same_parse(r, parse_u64(bytes@, pos as int)),
{
    if pos > bytes.len() || bytes.len() - pos < 8 {
        return None;
    }
    match borsh_read_u64(slice_subrange(bytes, pos, pos + 8)) {
        Some(x) => Some((x, pos + 8)),
        None => None,
    }
}

/// Reads a hash value at `pos`: the value and the position after it, or
/// `None` where `bytes` holds none there.
pub fn read_hash(bytes: &[u8], pos: usize) -> (r: Option<(Hash32, usize)>)
    ensures
        same_parse(r, parse_hash(bytes@, pos as int)),
{
    if pos > bytes.len() || bytes.len() - pos < 32 {
        return None;
    }
    let mut h: Hash32 = [0u8; 32];
    let mut i: usize = 0;
    while i < 32
        invariant
            i <= 32,
            pos + 32 <= bytes.len(),
            forall|k: int| 0 <= k < i ==> h@[k] == bytes@[pos + k],
        decreases 32 - i,
    {
        h[i] = bytes[pos + i];
        i += 1;
    }
    proof {
        assert(h@ =~= bytes@.subrange(pos as int, pos + 32));
        lemma_hash_of(h);
    }
    Some((h, pos + 32))
}

/// Reads an optional hash value at `pos`: the value and the position after it, or
/// `None` where `bytes` holds none there.
pub fn read_option_hash(bytes: &[u8], pos: usize) -> (r: Option<(Option<Hash32>, usize)>)
    ensures
        same_parse(r, parse_option_hash(bytes@, pos as int)),
{
    match read_u8(bytes, pos) {
        Some((tag, next)) => {
            if tag == 0 {
                Some((None, next))
            } else if tag == 1 {
                match read_hash(bytes, next) {
                    Some((h, end)) => Some((Some(h), end)),
                    None => None,
                }
            } else {
                None
            }
        },
        None => None,
    }
}

/// Reads a list of hashes at `pos`: the value and the position after it, or
/// `None` where `bytes` holds none there.
pub fn read_hashes(bytes: &[u8], pos: usize) -> (r: Option<(Vec<Hash32>, usize)>)
    ensures
        match parse_hashes(bytes@, pos as int) {
            Some((items, end)) => r matches Some((v, n)) && v@ == items && n == end,
            None => r is None,
        },
{
    let (n, start) = match read_u32(bytes, pos) {
        Some(pair) => pair,
        None => {
            return None;
        },
    };
    if (bytes.len() - start) as u64 / 32 < n as u64 {
        return None;
    }
    let mut items: Vec<Hash32> = Vec::new();
    let mut at: usize = start;
    let mut i: u32 = 0;
    while i < n
        invariant
            i <= n,
            start + 32 * n <= bytes.len(),
            at == start + 32 * i,
            items@.len() == i,
            forall|k: int|
                0 <= k < i ==> items@[k] == hash_of(
                    bytes@.subrange(start + 32 * k, start + 32 * k + 32),
                ),
        decreases n - i,
    {
        match read_hash(bytes, at) {
            Some((h, next)) => {
                items.push(h);
                at = next;
            },
            None => {
                return None;
            },
        }
        i += 1;
    }
    assert(items@ =~= parse_hashes(bytes@, pos as int).unwrap().0);
    Some((items, at))
}

/// Reads a byte string at `pos`: the value and the position after it, or
/// `None` where `bytes` holds none there.
pub fn read_bytes(bytes: &[u8], pos: usize) -> (r: Option<(Vec<u8>, usize)>)
    ensures
        match parse_bytes(bytes@, pos as int) {
            Some((data, end)) => r matches Some((v, n)) && v@ == data && n == end,
            None => r is None,
        },
{
    let (n, start) = match read_u32(bytes, pos) {
        Some(pair) => pair,
        None => {
            return None;
        },
    };
    if ((bytes.len() - start) as u64) < n as u64 {
        return None;
    }
    let end: usize = start + n as usize;
    let mut data: Vec<u8> = Vec::new();
    write_raw(&mut data, slice_subrange(bytes, start, end));
    assert(data@ =~= bytes@.subrange(start as int, end as int));
    Some((data, end))
}

/// Reads a text at `pos`: the value and the position after it, or
/// `None` where `bytes` holds none there.
pub fn read_string(bytes: &[u8], pos: usize) -> (r: Option<(String, usize)>)
    ensures
        match parse_string(bytes@, pos as int) {
            Some((text, end)) => r matches Some((v, n)) && v@ == text && n == end,
            None => r is None,
        },
{
    match read_bytes(bytes, pos) {
        Some((raw, end)) => match string_from_utf8(raw) {
            Some(text) => Some((text, end)),
            None => None,
        },
        None => None,
    }
}

/// A hash value is determined by its bytes.
pub proof fn lemma_hash_of(h: Hash32)
    ensures
        hash_of(h@) == h,
{
    let c = hash_of(h@);
    assert(c@ == h@);
    assert(c =~= h);
}

/// The flattened list holds 32 bytes per hash, the k-th hash at `32 * k`.
pub proof fn lemma_flatten(items: Seq<Hash32>, k: int)
    ensures
        flatten(items).len() == 32 * items.len(),
        0 <= k < items.len() ==> flatten(items).subrange(32 * k, 32 * k + 32) == items[k]@,
    decreases items.len(),
{
    if items.len() > 0 {
        let front = items.drop_last();
        lemma_flatten(front, k);
        lemma_flatten(front, 0);
        if 0 <= k < front.len() {
            assert(flatten(items).subrange(32 * k, 32 * k + 32) =~= flatten(front).subrange(
                32 * k,
                32 * k + 32,
            ));
        } else if k == front.len() {
            assert(flatten(items).subrange(32 * k, 32 * k + 32) =~= items.last()@);
        }
    }
}

/// A piece made of two parts stands at `pos` exactly if the first part
/// stands at `pos` and the second right after it.
pub proof fn lemma_holds_at_concat(bytes: Seq<u8>, pos: int, first: Seq<u8>, second: Seq<u8>)
    ensures
        holds_at(bytes, pos, first + second) <==> holds_at(bytes, pos, first) && holds_at(
            bytes,
            pos + first.len(),
            second,
        ),
{
    let whole = first + second;
    if holds_at(bytes, pos, whole) {
        assert(bytes.subrange(pos, pos + first.len()) =~= whole.subrange(0, first.len() as int));
        assert(whole.subrange(0, first.len() as int) =~= first);
        assert(bytes.subrange(pos + first.len(), pos + first.len() + second.len())
            =~= whole.subrange(first.len() as int, whole.len() as int));
        assert(whole.subrange(first.len() as int, whole.len() as int) =~= second);
    }
    if holds_at(bytes, pos, first) && holds_at(bytes, pos + first.len(), second) {
        assert(bytes.subrange(pos, pos + whole.len()) =~= bytes.subrange(pos, pos + first.len())
            + bytes.subrange(pos + first.len(), pos + first.len() + second.len()));
    }
}

/// A byte that stands at `pos` is read back from there.
pub proof fn lemma_read_back_u8(bytes: Seq<u8>, pos: int, x: u8)
    requires
        holds_at(bytes, pos, enc_u8(x)),
    ensures
        parse_u8(bytes, pos) == Some((x, pos + 1)),
{
    assert(bytes.subrange(pos, pos + 1)[0] == x);
}

/// A flag that stands at `pos` is read back from there.
pub proof fn lemma_read_back_bool(bytes: Seq<u8>, pos: int, x: bool)
    requires
        holds_at(bytes, pos, enc_bool(x)),
    ensures
        parse_bool(bytes, pos) == Some((x, pos + 1)),
{
    assert(bytes.subrange(pos, pos + 1)[0] == enc_bool(x)[0]);
}

/// A 32-bit integer that stands at `pos` is read back from there.
pub proof fn lemma_read_back_u32(bytes: Seq<u8>, pos: int, x: u32)
    requires
        holds_at(bytes, pos, enc_u32(x)),
    ensures
        enc_u32(x).len() == 4,
        parse_u32(bytes, pos) == Some((x, pos + 4)),
{
    lemma_auto_spec_u32_to_from_le_bytes();
}

/// A 64-bit integer that stands at `pos` is read back from there.
pub proof fn lemma_read_back_u64(bytes: Seq<u8>, pos: int, x: u64)
    requires
        holds_at(bytes, pos, enc_u64(x)),
    ensures
        enc_u64(x).len() == 8,
        parse_u64(bytes, pos) == Some((x, pos + 8)),
{
    lemma_auto_spec_u64_to_from_le_bytes();
}

/// A hash value that stands at `pos` is read back from there.
pub proof fn lemma_read_back_hash(bytes: Seq<u8>, pos: int, x: Hash32)
    requires
        holds_at(bytes, pos, enc_hash(x)),
    ensures
        parse_hash(bytes, pos) == Some((x, pos + 32)),
{
    lemma_hash_of(x);
}

/// An optional hash value that stands at `pos` is read back from there.
pub proof fn lemma_read_back_option_hash(bytes: Seq<u8>, pos: int, x: Option<Hash32>)
    requires
        holds_at(bytes, pos, enc_option_hash(x)),
    ensures
        parse_option_hash(bytes, pos) == Some((x, pos + enc_option_hash(x).len())),
{
    match x {
        None => {
            assert(bytes.subrange(pos, pos + 1)[0] == 0u8);
        },
        Some(h) => {
            lemma_holds_at_concat(bytes, pos, seq![1u8], h@);
            assert(bytes.subrange(pos, pos + 1)[0] == 1u8);
            lemma_read_back_hash(bytes, pos + 1, h);
        },
    }
}

/// A list of hashes that stands at `pos` is read back from there.
pub proof fn lemma_read_back_hashes(bytes: Seq<u8>, pos: int, items: Seq<Hash32>)
    requires
        items.len() <= u32::MAX,
        holds_at(bytes, pos, enc_hashes(items)),
    ensures
        enc_hashes(items).len() == 4 + 32 * items.len(),
        parse_hashes(bytes, pos) == Some((items, pos + 4 + 32 * items.len())),
{
    let n = items.len() as u32;
    lemma_auto_spec_u32_to_from_le_bytes();
    lemma_holds_at_concat(bytes, pos, enc_u32(n), flatten(items));
    lemma_read_back_u32(bytes, pos, n);
    lemma_flatten(items, 0);
    let start = pos + 4;
    let parsed = parse_hashes(bytes, pos).unwrap().0;
    assert forall|k: int| 0 <= k < items.len() implies parsed[k] == items[k] by {
        lemma_flatten(items, k);
        assert(bytes.subrange(start + 32 * k, start + 32 * k + 32) =~= bytes.subrange(
            start,
            start + 32 * items.len(),
        ).subrange(32 * k, 32 * k + 32));
        lemma_hash_of(items[k]);
    }
    assert(parsed =~= items);
}

/// A byte string that stands at `pos` is read back from there.
pub proof fn lemma_read_back_bytes(bytes: Seq<u8>, pos: int, data: Seq<u8>)
    requires
        data.len() <= u32::MAX,
        holds_at(bytes, pos, enc_bytes(data)),
    ensures
        enc_bytes(data).len() == 4 + data.len(),
        parse_bytes(bytes, pos) == Some((data, pos + 4 + data.len())),
{
    let n = data.len() as u32;
    lemma_auto_spec_u32_to_from_le_bytes();
    lemma_holds_at_concat(bytes, pos, enc_u32(n), data);
    lemma_read_back_u32(bytes, pos, n);
}

/// A text that stands at `pos` is read back from there.
pub proof fn lemma_read_back_string(bytes: Seq<u8>, pos: int, text: Seq<char>)
    requires
        encode_utf8(text).len() <= u32::MAX,
        holds_at(bytes, pos, enc_string(text)),
    ensures
        enc_string(text).len() == 4 + encode_utf8(text).len(),
        parse_string(bytes, pos) == Some((text, pos + 4 + encode_utf8(text).len())),
{
    lemma_read_back_bytes(bytes, pos, encode_utf8(text));
    vstd::utf8::encode_utf8_valid_utf8(text);
    vstd::utf8::encode_utf8_decode_utf8(text);
}

/// The hash value that holds the first `k` bytes of `bytes` and zeros
/// after them.
pub open spec fn filled(bytes: Seq<u8>, k: nat) -> Hash32
    decreases k,
{
    if k == 0 {
        crate::hash::zero_hash()
    } else {
        vstd::array::spec_array_update(
            filled(bytes, (k - 1) as nat),
            k - 1,
            bytes[k - 1],
        )
    }
}

/// `filled` holds the first `k` bytes of `bytes`.
proof fn lemma_filled(bytes: Seq<u8>, k: nat)
    requires
        bytes.len() == 32,
        k <= 32,
    ensures
        forall|i: int| 0 <= i < k ==> filled(bytes, k)@[i] == bytes[i],
    decreases k,
{
    if k > 0 {
        lemma_filled(bytes, (k - 1) as nat);
    }
}

/// Any 32 bytes are the bytes of a hash value.
pub proof fn lemma_hash_of_bytes(bytes: Seq<u8>)
    requires
        bytes.len() == 32,
    ensures
        hash_of(bytes)@ == bytes,
{
    lemma_filled(bytes, 32);
    assert(filled(bytes, 32)@ =~= bytes);
}

/// A byte that is read at `pos` stands there in its encoding.
pub proof fn lemma_parsed_u8(bytes: Seq<u8>, pos: int)
    requires
        parse_u8(bytes, pos) is Some,
    ensures
        holds_at(bytes, pos, enc_u8(parse_u8(bytes, pos).unwrap().0)),
        parse_u8(bytes, pos).unwrap().1 == pos + 1,
{
    assert(bytes.subrange(pos, pos + 1) =~= enc_u8(bytes[pos]));
}

/// A flag that is read at `pos` stands there in its encoding.
pub proof fn lemma_parsed_bool(bytes: Seq<u8>, pos: int)
    requires
        parse_bool(bytes, pos) is Some,
    ensures
        holds_at(bytes, pos, enc_bool(parse_bool(bytes, pos).unwrap().0)),
        parse_bool(bytes, pos).unwrap().1 == pos + 1,
{
    assert(bytes.subrange(pos, pos + 1) =~= enc_bool(bytes[pos] == 1));
}

/// A 32-bit integer that is read at `pos` stands there in its encoding.
pub proof fn lemma_parsed_u32(bytes: Seq<u8>, pos: int)
    requires
        parse_u32(bytes, pos) is Some,
    ensures
        holds_at(bytes, pos, enc_u32(parse_u32(bytes, pos).unwrap().0)),
        enc_u32(parse_u32(bytes, pos).unwrap().0).len() == 4,
        parse_u32(bytes, pos).unwrap().1 == pos + 4,
{
    lemma_auto_spec_u32_to_from_le_bytes();
}

/// A 64-bit integer that is read at `pos` stands there in its encoding.
pub proof fn lemma_parsed_u64(bytes: Seq<u8>, pos: int)
    requires
        parse_u64(bytes, pos) is Some,
    ensures
        holds_at(bytes, pos, enc_u64(parse_u64(bytes, pos).unwrap().0)),
        enc_u64(parse_u64(bytes, pos).unwrap().0).len() == 8,
        parse_u64(bytes, pos).unwrap().1 == pos + 8,
{
    lemma_auto_spec_u64_to_from_le_bytes();
}

/// A hash value that is read at `pos` stands there in its encoding.
pub proof fn lemma_parsed_hash(bytes: Seq<u8>, pos: int)
    requires
        parse_hash(bytes, pos) is Some,
    ensures
        holds_at(bytes, pos, enc_hash(parse_hash(bytes, pos).unwrap().0)),
        parse_hash(bytes, pos).unwrap().1 == pos + 32,
{
    lemma_hash_of_bytes(bytes.subrange(pos, pos + 32));
}

/// An optional hash value that is read at `pos` stands there in its encoding.
pub proof fn lemma_parsed_option_hash(bytes: Seq<u8>, pos: int)
    requires
        parse_option_hash(bytes, pos) is Some,
    ensures
        holds_at(bytes, pos, enc_option_hash(parse_option_hash(bytes, pos).unwrap().0)),
        parse_option_hash(bytes, pos).unwrap().1 == pos + enc_option_hash(
            parse_option_hash(bytes, pos).unwrap().0,
        ).len(),
{
    lemma_parsed_u8(bytes, pos);
    match parse_option_hash(bytes, pos).unwrap().0 {
        None => {
            assert(enc_u8(0) =~= enc_option_hash(None));
        },
        Some(h) => {
            lemma_parsed_hash(bytes, pos + 1);
            lemma_holds_at_concat(bytes, pos, seq![1u8], h@);
            assert(enc_u8(1) =~= seq![1u8]);
        },
    }
}

/// A list of hashes that is read at `pos` stands there in its encoding.
pub proof fn lemma_parsed_hashes(bytes: Seq<u8>, pos: int)
    requires
        parse_hashes(bytes, pos) is Some,
    ensures
        parse_hashes(bytes, pos).unwrap().0.len() <= u32::MAX,
        holds_at(bytes, pos, enc_hashes(parse_hashes(bytes, pos).unwrap().0)),
        parse_hashes(bytes, pos).unwrap().1 == pos + enc_hashes(
            parse_hashes(bytes, pos).unwrap().0,
        ).len(),
{
    let n = parse_u32(bytes, pos).unwrap().0;
    let items = parse_hashes(bytes, pos).unwrap().0;
    let start = pos + 4;
    lemma_parsed_u32(bytes, pos);
    lemma_flatten(items, 0);
    let flat = bytes.subrange(start, start + 32 * n);
    assert forall|j: int| 0 <= j < 32 * n implies flatten(items)[j] == flat[j] by {
        let k = j / 32;
        lemma_flatten(items, k);
        lemma_hash_of_bytes(bytes.subrange(start + 32 * k, start + 32 * k + 32));
        assert(flatten(items).subrange(32 * k, 32 * k + 32)[j - 32 * k] == items[k]@[j - 32 * k]);
    }
    assert(flatten(items) =~= flat);
    lemma_holds_at_concat(bytes, pos, enc_u32(n), flatten(items));
}

/// A byte string that is read at `pos` stands there in its encoding.
pub proof fn lemma_parsed_bytes(bytes: Seq<u8>, pos: int)
    requires
        parse_bytes(bytes, pos) is Some,
    ensures
        parse_bytes(bytes, pos).unwrap().0.len() <= u32::MAX,
        holds_at(bytes, pos, enc_bytes(parse_bytes(bytes, pos).unwrap().0)),
        parse_bytes(bytes, pos).unwrap().1 == pos + enc_bytes(
            parse_bytes(bytes, pos).unwrap().0,
        ).len(),
{
    let n = parse_u32(bytes, pos).unwrap().0;
    lemma_parsed_u32(bytes, pos);
    lemma_holds_at_concat(bytes, pos, enc_u32(n), parse_bytes(bytes, pos).unwrap().0);
}

/// A text that is read at `pos` stands there in its encoding.
pub proof fn lemma_parsed_string(bytes: Seq<u8>, pos: int)
    requires
        parse_string(bytes, pos) is Some,
    ensures
        encode_utf8(parse_string(bytes, pos).unwrap().0).len() <= u32::MAX,
        holds_at(bytes, pos, enc_string(parse_string(bytes, pos).unwrap().0)),
        parse_string(bytes, pos).unwrap().1 == pos + enc_string(
            parse_string(bytes, pos).unwrap().0,
        ).len(),
{
    lemma_parsed_bytes(bytes, pos);
    vstd::utf8::decode_utf8_encode_utf8(parse_bytes(bytes, pos).unwrap().0);
}

} // verus!
