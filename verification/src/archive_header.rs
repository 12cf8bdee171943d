//! Decryption of the archive header: AES-128 in XTS mode over 512-byte
//! sectors, with the sector index encoded big-endian in the tweak.

use crate::block_cipher::{xts128_decrypt_sector, xts_decrypt_sector};
use crate::bytes::block_at;
use crate::error::DecryptError;
use crate::tweak::{get_nintendo_tweak, nintendo_tweak};
use vstd::prelude::*;
use vstd::slice::slice_subrange;

verus! {

/// Number of bytes in one sector.
pub const SECTOR_SIZE: usize = 0x200;

/// Number of bytes in an encrypted archive header.
pub const HEADER_SIZE: usize = 0xC00;

/// Number of header bytes decrypted before the format magic is checked.
pub const FIRST_REGION_SIZE: usize = 0x400;

/// The format magic that a supported header carries at byte `0x200`:
/// the characters `NCA3`.
pub open spec fn nca_magic() -> Seq<u8> {
    seq![0x4Eu8, 0x43u8, 0x41u8, 0x33u8]
}

/// The index of the sector that lies `skipped` sectors behind the sector
/// `first`. Sector indices wrap around at `2^128`.
pub open spec fn sector_index_behind(first: u128, skipped: nat) -> u128 {
    ((first + skipped) % 0x1_0000_0000_0000_0000_0000_0000_0000_0000int) as u128
}

/// Sector `i` of `area`.
pub open spec fn sector_of(area: Seq<u8>, i: nat) -> Seq<u8> {
    area.subrange(0x200 * i as int, 0x200 * i as int + 0x200)
}

/// The plaintext of sector `i` of `area`, when the first sector of the area
/// has the index `first`: the sector decrypted under the tweak of its index.
pub open spec fn xts_sector_plain(
    key1: Seq<u8>,
    key2: Seq<u8>,
    first: u128,
    area: Seq<u8>,
    i: nat,
) -> Seq<u8> {
    xts128_decrypt_sector(
        key1,
        key2,
        nintendo_tweak(sector_index_behind(first, i)),
        sector_of(area, i),
    )
}

/// The plaintexts of the first `n` sectors of `area`, one after the other.
pub open spec fn xts_sectors_plain(
    key1: Seq<u8>,
    key2: Seq<u8>,
    first: u128,
    area: Seq<u8>,
    n: nat,
) -> Seq<u8>
    decreases n,
{
    if n == 0 {
        Seq::empty()
    } else {
        xts_sectors_plain(key1, key2, first, area, (n - 1) as nat) + xts_sector_plain(
            key1,
            key2,
            first,
            area,
            (n - 1) as nat,
        )
    }
}

/// The plaintext of `area`, a whole number of sectors whose first has the
/// index `first`: every sector is decrypted under the tweak of its own index.
pub open spec fn xts_area_plain(key1: Seq<u8>, key2: Seq<u8>, first: u128, area: Seq<u8>) -> Seq<
    u8,
> {
    xts_sectors_plain(key1, key2, first, area, area.len() / 0x200)
}

/// The first header region, bytes `[0, 0x400)`, decrypted from sector index 0.
pub open spec fn header_first_region(key: Seq<u8>, input: Seq<u8>) -> Seq<u8> {
    xts_area_plain(key.subrange(0, 16), key.subrange(16, 32), 0, input.subrange(0, 0x400))
}

/// The second header region, bytes `[0x400, 0xC00)`, decrypted from sector
/// index 2.
pub open spec fn header_second_region(key: Seq<u8>, input: Seq<u8>) -> Seq<u8> {
    xts_area_plain(key.subrange(0, 16), key.subrange(16, 32), 2, input.subrange(0x400, 0xC00))
}

/// Whether the decrypted first region carries the format magic at bytes
/// `[0x200, 0x204)`.
pub open spec fn header_has_magic(key: Seq<u8>, input: Seq<u8>) -> bool {
    header_first_region(key, input).subrange(0x200, 0x204) == nca_magic()
}

/// The plaintext of a whole header.
pub open spec fn nca_header_plain(key: Seq<u8>, input: Seq<u8>) -> Seq<u8> {
    header_first_region(key, input) + header_second_region(key, input)
}

/// Decrypts `area`, a whole number of 512-byte sectors, where the first
/// sector has the index `first_sector_index` and every following sector the
/// next index.
///
/// An area whose length is not a multiple of 512 is refused with
/// `InvalidBufferLength`.
pub fn xts_decrypt_area(
    key1: &[u8; 16],
    key2: &[u8; 16],
    area: &[u8],
    first_sector_index: u128,
) -> (result: Result<Vec<u8>, DecryptError>)
    ensures
        area@.len() % 0x200 != 0 ==> result is Err && result->Err_0
            == DecryptError::InvalidBufferLength,
        area@.len() % 0x200 == 0 ==> result is Ok && result->Ok_0@.len() == area@.len()
            && result->Ok_0@ == xts_area_plain(key1@, key2@, first_sector_index, area@),
{
    let len: usize = area.len();
    if len % SECTOR_SIZE != 0 {
        return Err(DecryptError::InvalidBufferLength);
    }
    let sectors: usize = len / SECTOR_SIZE;
    let mut plain: Vec<u8> = Vec::new();
    let mut i: usize = 0;
    while i < sectors
        invariant
            i <= sectors,
            len == area@.len(),
            len == 0x200 * sectors,
            plain@.len() == 0x200 * i,
            plain@ == xts_sectors_plain(key1@, key2@, first_sector_index, area@, i as nat),
        decreases sectors - i,
    {
        let start: usize = i * SECTOR_SIZE;
        let sector = slice_subrange(area, start, start + SECTOR_SIZE);
        let index: u128 = first_sector_index.wrapping_add(i as u128);
        let tweak = get_nintendo_tweak(index);
        let mut clear = xts_decrypt_sector(key1, key2, tweak, sector);
        assert(clear@ == xts_sector_plain(key1@, key2@, first_sector_index, area@, i as nat));
        plain.append(&mut clear);
        i = i + 1;
    }
    Ok(plain)
}

/// Decrypts a 3072-byte archive header with a 32-byte key, whose halves are
/// the data key and the tweak key.
///
/// The first 1024 bytes are decrypted from sector index 0. They must then
/// show the format magic at bytes `[0x200, 0x204)`; otherwise the header is
/// refused with `FormatMismatch` and the rest is not decrypted. The remaining
/// 2048 bytes are decrypted from sector index 2.
///
/// A key of another length is refused with `InvalidKeyLength`, then a header
/// of another length with `InvalidBufferLength`.
pub fn decrypt_nca_header(key: &[u8], input: &[u8]) -> (result: Result<Vec<u8>, DecryptError>)
    ensures
        key@.len() != 0x20 ==> result is Err && result->Err_0 == DecryptError::InvalidKeyLength,
        key@.len() == 0x20 && input@.len() != 0xC00 ==> result is Err && result->Err_0
            == DecryptError::InvalidBufferLength,
        key@.len() == 0x20 && input@.len() == 0xC00 && !header_has_magic(key@, input@)
            ==> result is Err && result->Err_0 == DecryptError::FormatMismatch,
        key@.len() == 0x20 && input@.len() == 0xC00 && header_has_magic(key@, input@)
            ==> result is Ok && result->Ok_0@.len() == 0xC00 && result->Ok_0@ == nca_header_plain(
            key@,
            input@,
        ),
{
    if key.len() != 0x20 {
        return Err(DecryptError::InvalidKeyLength);
    }
    if input.len() != HEADER_SIZE {
        return Err(DecryptError::InvalidBufferLength);
    }
    let key1 = block_at(key, 0);
    let key2 = block_at(key, 0x10);

    let first_region = slice_subrange(input, 0, FIRST_REGION_SIZE);
    let mut buffer = match xts_decrypt_area(&key1, &key2, first_region, 0) {
        Ok(plain) => plain,
        Err(e) => {
            return Err(e);
        },
    };
    assert(buffer@ == header_first_region(key@, input@));

    let magic_found = buffer[0x200] == 0x4E && buffer[0x201] == 0x43 && buffer[0x202] == 0x41
        && buffer[0x203] == 0x33;
    assert(magic_found <==> buffer@.subrange(0x200, 0x204) =~= nca_magic());
    if !magic_found {
        return Err(DecryptError::FormatMismatch);
    }
    let second_region = slice_subrange(input, FIRST_REGION_SIZE, HEADER_SIZE);
    let mut rest = match xts_decrypt_area(&key1, &key2, second_region, 2) {
        Ok(plain) => plain,
        Err(e) => {
            return Err(e);
        },
    };
    buffer.append(&mut rest);
    Ok(buffer)
}

/// The first `n` sectors of an area decrypt the same whatever follows them.
pub proof fn lemma_sectors_ignore_what_follows(
    key1: Seq<u8>,
    key2: Seq<u8>,
    first: u128,
    head: Seq<u8>,
    tail: Seq<u8>,
    n: nat,
)
    requires
        0x200 * n <= head.len(),
    ensures
        xts_sectors_plain(key1, key2, first, head + tail, n) == xts_sectors_plain(
            key1,
            key2,
            first,
            head,
            n,
        ),
    decreases n,
{
    if n > 0 {
        let i = (n - 1) as nat;
        lemma_sectors_ignore_what_follows(key1, key2, first, head, tail, i);
        assert(sector_of(head + tail, i) =~= sector_of(head, i));
    }
}

/// Sector numbering continues across a split: decrypting `head` followed by
/// `tail` as one area gives the same bytes as decrypting `head` from the
/// index `first` and `tail` from the index just behind the sectors of `head`.
pub proof fn lemma_area_splits(
    key1: Seq<u8>,
    key2: Seq<u8>,
    first: u128,
    head: Seq<u8>,
    tail: Seq<u8>,
)
    requires
        head.len() % 0x200 == 0,
        tail.len() % 0x200 == 0,
    ensures
        xts_area_plain(key1, key2, first, head + tail) == xts_area_plain(key1, key2, first, head)
            + xts_area_plain(
            key1,
            key2,
            sector_index_behind(first, head.len() / 0x200),
            tail,
        ),
{
    let skipped = head.len() / 0x200;
    assert((head + tail).len() / 0x200 == skipped + tail.len() / 0x200);
    lemma_sectors_continue(key1, key2, first, head, tail, tail.len() / 0x200);
}

/// The induction behind [`lemma_area_splits`], over the sectors of `tail`.
proof fn lemma_sectors_continue(
    key1: Seq<u8>,
    key2: Seq<u8>,
    first: u128,
    head: Seq<u8>,
    tail: Seq<u8>,
    n: nat,
)
    requires
        head.len() % 0x200 == 0,
        0x200 * n <= tail.len(),
    ensures
        xts_sectors_plain(key1, key2, first, head + tail, head.len() / 0x200 + n)
            == xts_sectors_plain(key1, key2, first, head, head.len() / 0x200) + xts_sectors_plain(
            key1,
            key2,
            sector_index_behind(first, head.len() / 0x200),
            tail,
            n,
        ),
    decreases n,
{
    let skipped = head.len() / 0x200;
    let behind = sector_index_behind(first, skipped);
    if n == 0 {
        lemma_sectors_ignore_what_follows(key1, key2, first, head, tail, skipped);
        assert(xts_sectors_plain(key1, key2, behind, tail, 0) =~= Seq::<u8>::empty());
        assert(xts_sectors_plain(key1, key2, first, head, skipped) + Seq::<u8>::empty()
            =~= xts_sectors_plain(key1, key2, first, head, skipped));
    } else {
        let i = (n - 1) as nat;
        lemma_sectors_continue(key1, key2, first, head, tail, i);
        assert(sector_of(head + tail, skipped + i) =~= sector_of(tail, i));
        assert(sector_index_behind(first, skipped + i) == sector_index_behind(behind, i));
        assert(xts_sector_plain(key1, key2, first, head + tail, skipped + i) == xts_sector_plain(
            key1,
            key2,
            behind,
            tail,
            i,
        ));
        let done = xts_sectors_plain(key1, key2, first, head, skipped);
        let more = xts_sectors_plain(key1, key2, behind, tail, i);
        let last = xts_sector_plain(key1, key2, behind, tail, i);
        assert((done + more) + last =~= done + (more + last));
    }
}

/// A header decrypts as one area of six sectors with the indices 0 to 5: the
/// second region continues the numbering of the first.
pub proof fn lemma_header_is_one_area(key: Seq<u8>, input: Seq<u8>)
    requires
        input.len() == 0xC00,
    ensures
        nca_header_plain(key, input) == xts_area_plain(
            key.subrange(0, 16),
            key.subrange(16, 32),
            0,
            input,
        ),
{
    let head = input.subrange(0, 0x400);
    let tail = input.subrange(0x400, 0xC00);
    assert(head + tail =~= input);
    lemma_area_splits(key.subrange(0, 16), key.subrange(16, 32), 0, head, tail);
    assert(sector_index_behind(0, 2) == 2);
}

} // verus!
